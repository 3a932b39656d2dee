use crate::grid::{Grid, GridSquare};
use vstd::prelude::*;

verus! {

pub open spec fn abs_int(v: int) -> int {
    if v < 0 { -v } else { v }
}

/// Movement cost between two squares: straight steps cost 1 and diagonal
/// steps cost 1 and 2 alternately.
pub open spec fn spec_distance(a: GridSquare, b: GridSquare) -> int {
    let dy = abs_int(b.y - a.y);
    let dx = abs_int(b.x - a.x);
    let mx = if dy > dx { dy } else { dx };
    let mi = if dy > dx { dx } else { dy };
    mx + mi - (mi + 1) / 2
}

/// The two squares are close enough for `distance` to fit in `i32`.
pub open spec fn within_reach(a: GridSquare, b: GridSquare) -> bool {
    spec_distance(a, b) <= i32::MAX
}

/// Distance is symmetric.
pub proof fn lemma_distance_symmetric(a: GridSquare, b: GridSquare)
    ensures
        spec_distance(a, b) == spec_distance(b, a),
{
}

// Horizontal and vertical steps cost 1 unit each.
// Diagonal steps cost 1 and 2 units alternately.
pub fn distance(a: GridSquare, b: GridSquare) -> (r: i32)
    requires
        within_reach(a, b),
    ensures
        r == spec_distance(a, b),
{
    let ddy: i64 = b.y as i64 - a.y as i64;
    let ddx: i64 = b.x as i64 - a.x as i64;
    let dy: i64 = if ddy < 0 { -ddy } else { ddy };
    let dx: i64 = if ddx < 0 { -ddx } else { ddx };
    let mx: i64 = if dy > dx { dy } else { dx };
    let mi: i64 = if dy > dx { dx } else { dy };
    (mx + mi - (mi + 1) / 2) as i32
}

} // verus!

verus! {

pub open spec fn is_adjacent(a: GridSquare, b: GridSquare) -> bool {
    a != b && -1 <= b.y - a.y <= 1 && -1 <= b.x - a.x <= 1
}

pub open spec fn is_diagonal_step(a: GridSquare, b: GridSquare) -> bool {
    a.y != b.y && a.x != b.x
}

/// Cost of one step from `a` to the adjacent `b` after a number of
/// diagonal steps of the given parity (0: even, 1: odd).
pub open spec fn step_cost(a: GridSquare, b: GridSquare, parity: int) -> int {
    if is_diagonal_step(a, b) {
        1 + parity
    } else {
        1
    }
}

/// Parity of the number of diagonal steps after stepping from `a` to `b`.
pub open spec fn next_parity(a: GridSquare, b: GridSquare, parity: int) -> int {
    if is_diagonal_step(a, b) {
        1 - parity
    } else {
        parity
    }
}

/// Coordinates far enough from the limits of `i32` to have all neighbors.
pub open spec fn has_neighbors(square: GridSquare) -> bool {
    i32::MIN < square.y < i32::MAX && i32::MIN < square.x < i32::MAX
}

fn offset(square: GridSquare, dy: i32, dx: i32) -> (r: GridSquare)
    requires
        has_neighbors(square),
        -1 <= dy <= 1,
        -1 <= dx <= 1,
    ensures
        r.y == square.y + dy,
        r.x == square.x + dx,
{
    GridSquare { y: square.y + dy, x: square.x + dx }
}

/// The eight squares around `square`, row by row.
pub fn get_neighbors(square: GridSquare) -> (r: Vec<GridSquare>)
    requires
        has_neighbors(square),
    ensures
        r@.len() == 8,
        forall|i: int| 0 <= i < 8 ==> is_adjacent(square, #[trigger] r@[i]),
        forall|b: GridSquare| is_adjacent(square, b) ==> r@.contains(b),
        r@.no_duplicates(),
{
    let mut result: Vec<GridSquare> = Vec::new();
    result.push(offset(square, -1, -1));
    result.push(offset(square, -1, 0));
    result.push(offset(square, -1, 1));
    result.push(offset(square, 0, -1));
    result.push(offset(square, 0, 1));
    result.push(offset(square, 1, -1));
    result.push(offset(square, 1, 0));
    result.push(offset(square, 1, 1));
    assert forall|b: GridSquare| is_adjacent(square, b) implies result@.contains(b) by {
        let k: int = (b.y - square.y + 1) * 3 + (b.x - square.x + 1);
        let i: int = if k < 4 { k } else { k - 1 };
        assert(result@[i] == b);
    }
    result
}

fn is_diagonal_neighbor(a: GridSquare, b: GridSquare) -> (r: bool)
    requires
        is_adjacent(a, b),
    ensures
        r == is_diagonal_step(a, b),
{
    a.y != b.y && a.x != b.x
}

/// All squares within `radius` of `center`, ordered by distance; squares at
/// the same distance come row by row.
pub fn emanation(center: GridSquare, radius: i32) -> (r: Vec<GridSquare>)
    requires
        0 <= radius <= 0x1000_0000,
        i32::MIN + radius <= center.y < i32::MAX - radius,
        i32::MIN + radius <= center.x < i32::MAX - radius,
    ensures
        forall|i: int| 0 <= i < r@.len() ==> spec_distance(#[trigger] r@[i], center) <= radius,
        forall|s: GridSquare| spec_distance(s, center) <= radius ==> r@.contains(s),
        r@.no_duplicates(),
        forall|i: int, j: int|
            0 <= i < j < r@.len() ==> spec_distance(r@[i], center) <= spec_distance(
                r@[j],
                center,
            ),
{
    let mut result: Vec<GridSquare> = Vec::new();
    let mut d: i32 = 0;
    while d <= radius
        invariant
            0 <= d <= radius + 1,
            radius <= 0x1000_0000,
            i32::MIN + radius <= center.y < i32::MAX - radius,
            i32::MIN + radius <= center.x < i32::MAX - radius,
            forall|s: GridSquare| result@.contains(s) <==> spec_distance(s, center) < d,
            result@.no_duplicates(),
            forall|i: int, j: int|
                0 <= i < j < result@.len() ==> spec_distance(result@[i], center)
                    <= spec_distance(result@[j], center),
            forall|i: int| 0 <= i < result@.len() ==> spec_distance(#[trigger] result@[i], center) < d,
        decreases radius + 1 - d,
    {
        let mut cy: i32 = center.y - radius;
        while cy <= center.y + radius
            invariant
                0 <= d <= radius,
                radius <= 0x1000_0000,
                i32::MIN + radius <= center.y < i32::MAX - radius,
                i32::MIN + radius <= center.x < i32::MAX - radius,
                center.y - radius <= cy <= center.y + radius + 1,
                forall|s: GridSquare|
                    result@.contains(s) <==> (spec_distance(s, center) < d || (spec_distance(s, center) == d && s.y < cy)),
                result@.no_duplicates(),
                forall|i: int, j: int|
                    0 <= i < j < result@.len() ==> spec_distance(result@[i], center)
                        <= spec_distance(result@[j], center),
                forall|i: int| 0 <= i < result@.len() ==> spec_distance(#[trigger] result@[i], center) <= d,
            decreases center.y + radius + 1 - cy,
        {
            let mut cx: i32 = center.x - radius;
            while cx <= center.x + radius
                invariant
                    0 <= d <= radius,
                    radius <= 0x1000_0000,
                    i32::MIN + radius <= center.y < i32::MAX - radius,
                    i32::MIN + radius <= center.x < i32::MAX - radius,
                    center.y - radius <= cy <= center.y + radius,
                    center.x - radius <= cx <= center.x + radius + 1,
                    forall|s: GridSquare|
                        result@.contains(s) <==> (spec_distance(s, center) < d || (spec_distance(
                            s,
                            center,
                        ) == d && (s.y < cy || (s.y == cy && s.x < cx)))),
                    result@.no_duplicates(),
                    forall|i: int, j: int|
                        0 <= i < j < result@.len() ==> spec_distance(result@[i], center)
                            <= spec_distance(result@[j], center),
                    forall|i: int| 0 <= i < result@.len() ==> spec_distance(#[trigger] result@[i], center) <= d,
                decreases center.x + radius + 1 - cx,
            {
                let sq = GridSquare { y: cy, x: cx };
                if distance(sq, center) == d {
                    let ghost old_result = result@;
                    result.push(sq);
                    proof {
                        assert(!old_result.contains(sq));
                        assert forall|s: GridSquare| result@.contains(s) <==> (spec_distance(s, center) < d || (spec_distance(
                            s,
                            center,
                        ) == d && (s.y < cy || (s.y == cy && s.x < cx + 1)))) by {
                            if result@.contains(s) && s != sq {
                                let i = choose|i: int| 0 <= i < result@.len() && result@[i] == s;
                                assert(old_result[i] == s);
                            }
                            if old_result.contains(s) {
                                let i = choose|i: int| 0 <= i < old_result.len() && old_result[i] == s;
                                assert(result@[i] == s);
                            }
                            if s == sq {
                                assert(result@[result@.len() - 1] == s);
                            }
                        }
                    }
                }
                cx = cx + 1;
            }
            cy = cy + 1;
        }
        d = d + 1;
    }
    result
}

} // verus!

verus! {

/// What the search knows of one square reached with a given parity of
/// diagonal steps.
#[derive(Clone, Copy)]
struct StateInfo {
    /// Cost of the cheapest walk found so far; negative while unreached.
    dist: i32,
    /// Square the walk came from; `None` at a source.
    pred: Option<GridSquare>,
    /// The cost is final and the steps out of this state were examined.
    done: bool,
}

/// Cheapest walks from a set of sources, over states made of a square and
/// the parity of the number of diagonal steps taken to reach it.
pub struct ShortestPaths {
    height: i32,
    width: i32,
    sources: Vec<GridSquare>,
    states: Vec<StateInfo>,
}

proof fn lemma_index(h: int, w: int, a: GridSquare, pa: int, b: GridSquare, pb: int)
    requires
        0 < h,
        0 < w,
        0 <= a.y < h,
        0 <= a.x < w,
        0 <= b.y < h,
        0 <= b.x < w,
        0 <= pa < 2,
        0 <= pb < 2,
    ensures
        0 <= (a.y * w + a.x) * 2 + pa < h * w * 2,
        (a != b || pa != pb) ==> (a.y * w + a.x) * 2 + pa != (b.y * w + b.x) * 2 + pb,
{
    let ay = a.y as int;
    let ax = a.x as int;
    let by = b.y as int;
    let bx = b.x as int;
    assert(0 <= ay * w + ax < h * w) by (nonlinear_arith)
        requires
            0 <= ay < h,
            0 <= ax < w,
    ;
    if ay < by {
        assert(ay * w + ax < by * w + bx) by (nonlinear_arith)
            requires
                ay < by,
                0 <= ax < w,
                0 <= bx,
        ;
    } else if by < ay {
        assert(by * w + bx < ay * w + ax) by (nonlinear_arith)
            requires
                by < ay,
                0 <= bx < w,
                0 <= ax,
        ;
    }
}

impl ShortestPaths {
    pub closed spec fn spec_height(&self) -> int {
        self.height as int
    }

    pub closed spec fn spec_width(&self) -> int {
        self.width as int
    }

    /// The squares the search started from.
    pub closed spec fn source_squares(&self) -> Seq<GridSquare> {
        self.sources@
    }

    pub open spec fn in_grid(&self, square: GridSquare) -> bool {
        0 <= square.y < self.spec_height() && 0 <= square.x < self.spec_width()
    }

    closed spec fn index(&self, square: GridSquare, parity: int) -> int {
        (square.y * self.width + square.x) * 2 + parity
    }

    closed spec fn info(&self, square: GridSquare, parity: int) -> StateInfo {
        self.states@[self.index(square, parity)]
    }

    /// Cost of the cheapest walk found to `square` arriving with `parity`;
    /// negative when there is none.
    pub closed spec fn state_dist(&self, square: GridSquare, parity: int) -> int {
        self.info(square, parity).dist as int
    }

    /// Square before `square` on that walk.
    pub closed spec fn state_pred(&self, square: GridSquare, parity: int) -> Option<GridSquare> {
        self.info(square, parity).pred
    }

    closed spec fn state_done(&self, square: GridSquare, parity: int) -> bool {
        self.info(square, parity).done
    }

    pub open spec fn reached(&self, square: GridSquare, parity: int) -> bool {
        self.in_grid(square) && 0 <= parity < 2 && self.state_dist(square, parity) >= 0
    }

    /// A reached state is a source at cost 0, or one step from the reached
    /// state it came from.
    pub open spec fn state_ok(&self, square: GridSquare, parity: int) -> bool {
        let d = self.state_dist(square, parity);
        match self.state_pred(square, parity) {
            None => d == 0 && parity == 0 && self.source_squares().contains(square),
            Some(y) => {
                let q = next_parity(y, square, parity);
                &&& is_adjacent(y, square)
                &&& self.reached(y, q)
                &&& d == self.state_dist(y, q) + step_cost(y, square, q)
            },
        }
    }

    pub open spec fn wf(&self) -> bool {
        &&& 0 < self.spec_height() <= crate::grid::MAX_GRID_SIDE
        &&& 0 < self.spec_width() <= crate::grid::MAX_GRID_SIDE
        &&& self.states_len_ok()
        &&& self.all_states_ok()
    }

    /// Every reached state is consistent with the one it came from.
    #[verifier::opaque]
    pub closed spec fn all_states_ok(&self) -> bool {
        forall|s: GridSquare, p: int| #[trigger] self.reached(s, p) ==> self.state_ok(s, p)
    }

    pub closed spec fn states_len_ok(&self) -> bool {
        self.states@.len() == self.height * self.width * 2
    }

    /// Every reached state lies on a free square within the budget, and
    /// every step out of a reached state that stays within the budget
    /// reaches a state at no greater cost.
    pub open spec fn closed_under_steps(&self, grid: &Grid, max_distance: int) -> bool {
        &&& forall|s: GridSquare, p: int| #[trigger]
            self.reached(s, p) && self.state_pred(s, p).is_some() ==> grid.is_free(s)
                && self.state_dist(s, p) <= max_distance
        &&& forall|s: GridSquare, p: int, nb: GridSquare|
            #![trigger self.reached(s, p), grid.is_free(nb), is_adjacent(s, nb)]
            self.reached(s, p) && is_adjacent(s, nb) && grid.is_free(nb) && self.state_dist(s, p)
                + step_cost(s, nb, p) <= max_distance ==> self.reached(nb, next_parity(s, nb, p))
                && self.state_dist(nb, next_parity(s, nb, p)) <= self.state_dist(s, p) + step_cost(
                s,
                nb,
                p,
            )
    }

    /// Cheapest cost to `square` over both parities.
    pub open spec fn best_distance(&self, square: GridSquare) -> Option<int> {
        if !self.in_grid(square) {
            None
        } else if self.reached(square, 0) && (!self.reached(square, 1) || self.state_dist(square, 0)
            <= self.state_dist(square, 1)) {
            Some(self.state_dist(square, 0))
        } else if self.reached(square, 1) {
            Some(self.state_dist(square, 1))
        } else {
            None
        }
    }

    proof fn lemma_index_of(&self, a: GridSquare, pa: int, b: GridSquare, pb: int)
        requires
            0 < self.spec_height(),
            0 < self.spec_width(),
            self.states_len_ok(),
            self.in_grid(a),
            self.in_grid(b),
            0 <= pa < 2,
            0 <= pb < 2,
        ensures
            0 <= self.index(a, pa) < self.states@.len(),
            (a != b || pa != pb) ==> self.index(a, pa) != self.index(b, pb),
    {
        lemma_index(self.height as int, self.width as int, a, pa, b, pb);
    }

    fn index_of(&self, square: GridSquare, parity: usize, n: usize) -> (r: usize)
        requires
            0 < self.spec_height(),
            0 < self.spec_width(),
            self.states_len_ok(),
            n == self.states@.len(),
            self.in_grid(square),
            parity < 2,
        ensures
            r == self.index(square, parity as int),
            r < n,
    {
        proof {
            self.lemma_index_of(square, parity as int, square, parity as int);
            assert(square.y * self.width <= square.y * self.width + square.x);
        }
        let row = (square.y as usize) * (self.width as usize);
        (row + square.x as usize) * 2 + parity
    }

    fn get_state(&self, square: GridSquare, parity: usize) -> (r: StateInfo)
        requires
            0 < self.spec_height(),
            0 < self.spec_width(),
            self.states_len_ok(),
            self.in_grid(square),
            parity < 2,
        ensures
            r == self.info(square, parity as int),
    {
        proof {
            self.lemma_index_of(square, parity as int, square, parity as int);
        }
        let n = self.states.len();
        let i = self.index_of(square, parity, n);
        self.states[i]
    }

    fn set_state(&mut self, square: GridSquare, parity: usize, info: StateInfo)
        requires
            0 < old(self).spec_height(),
            0 < old(self).spec_width(),
            old(self).states_len_ok(),
            old(self).in_grid(square),
            parity < 2,
        ensures
            final(self).height == old(self).height,
            final(self).width == old(self).width,
            final(self).sources == old(self).sources,
            final(self).states_len_ok(),
            final(self).states@ == old(self).states@.update(
                old(self).index(square, parity as int),
                info,
            ),
            final(self).info(square, parity as int) == info,
            forall|s: GridSquare, p: int|
                #![trigger final(self).info(s, p)]
                old(self).in_grid(s) && 0 <= p < 2 && (s != square || p != parity) ==> final(self).info(s, p) == old(self).info(s, p),
    {
        proof {
            self.lemma_index_of(square, parity as int, square, parity as int);
        }
        let n = self.states.len();
        let i = self.index_of(square, parity, n);
        self.states.set(i, info);
        proof {
            assert forall|s: GridSquare, p: int|
                #![trigger self.info(s, p)]
                old(self).in_grid(s) && 0 <= p < 2 && (s != square || p != parity) implies self.info(
                s,
                p,
            ) == old(self).info(s, p) by {
                old(self).lemma_index_of(s, p, square, parity as int);
            }
        }
    }

    closed spec fn scanned(y: int, x: int, s: GridSquare) -> bool {
        s.y < y || (s.y == y && s.x < x)
    }

    closed spec fn open_state(&self, s: GridSquare, p: int) -> bool {
        self.reached(s, p) && !self.state_done(s, p)
    }

    closed spec fn at_most(&self, best: Option<(GridSquare, usize)>, s: GridSquare, q: int) -> bool {
        match best {
            Some(b) => self.state_dist(b.0, b.1 as int) <= self.state_dist(s, q),
            None => false,
        }
    }

    closed spec fn best_so_far(&self, best: Option<(GridSquare, usize)>, y: int, x: int) -> bool {
        &&& best matches Some(b) ==> b.1 < 2 && self.open_state(b.0, b.1 as int)
        &&& forall|s: GridSquare, q: int|
            #![trigger self.state_done(s, q)]
            Self::scanned(y, x, s) && self.open_state(s, q) ==> self.at_most(best, s, q)
    }

    fn consider(&self, best: Option<(GridSquare, usize)>, square: GridSquare, parity: usize) -> (r:
        Option<(GridSquare, usize)>)
        requires
            0 < self.spec_height(),
            0 < self.spec_width(),
            self.states_len_ok(),
            self.in_grid(square),
            parity < 2,
            best matches Some(b) ==> b.1 < 2 && self.open_state(b.0, b.1 as int),
        ensures
            r matches Some(b) ==> b.1 < 2 && self.open_state(b.0, b.1 as int),
            self.open_state(square, parity as int) ==> self.at_most(r, square, parity as int),
            best matches Some(c) ==> self.at_most(r, c.0, c.1 as int),
    {
        let info = self.get_state(square, parity);
        if info.dist < 0 || info.done {
            return best;
        }
        match best {
            None => Some((square, parity)),
            Some(b) => {
                let current = self.get_state(b.0, b.1);
                if info.dist < current.dist {
                    Some((square, parity))
                } else {
                    best
                }
            },
        }
    }

    /// The reached state with the lowest cost whose steps were not examined yet.
    fn find_next(&self) -> (r: Option<(GridSquare, usize)>)
        requires
            0 < self.spec_height() <= crate::grid::MAX_GRID_SIDE,
            0 < self.spec_width() <= crate::grid::MAX_GRID_SIDE,
            self.states_len_ok(),
        ensures
            r matches Some(b) ==> b.1 < 2 && self.open_state(b.0, b.1 as int),
            forall|s: GridSquare, q: int|
                #![trigger self.state_done(s, q)]
                self.open_state(s, q) ==> self.at_most(r, s, q),
            r is None ==> forall|s: GridSquare, q: int|
                #![trigger self.state_done(s, q)]
                !self.open_state(s, q),
    {
        let mut best: Option<(GridSquare, usize)> = None;
        let mut y: i32 = 0;
        while y < self.height
            invariant
                0 < self.spec_height() <= crate::grid::MAX_GRID_SIDE,
                0 < self.spec_width() <= crate::grid::MAX_GRID_SIDE,
                self.states_len_ok(),
                0 <= y <= self.height,
                self.best_so_far(best, y as int, 0),
            decreases self.height - y,
        {
            let mut x: i32 = 0;
            while x < self.width
                invariant
                    0 < self.spec_height() <= crate::grid::MAX_GRID_SIDE,
                    0 < self.spec_width() <= crate::grid::MAX_GRID_SIDE,
                    self.states_len_ok(),
                    0 <= y < self.height,
                    0 <= x <= self.width,
                    self.best_so_far(best, y as int, x as int),
                decreases self.width - x,
            {
                let sq = GridSquare { y, x };
                let b0 = best;
                let b1 = self.consider(b0, sq, 0);
                let b2 = self.consider(b1, sq, 1);
                proof {
                    assert forall|s: GridSquare, q: int|
                        #![trigger self.state_done(s, q)]
                        Self::scanned(y as int, x + 1, s) && self.open_state(s, q) implies self.at_most(b2, s, q) by {
                        if s != sq {
                            assert(Self::scanned(y as int, x as int, s));
                        }
                    }
                }
                best = b2;
                x = x + 1;
            }
            proof {
                assert forall|s: GridSquare, q: int|
                    #![trigger self.state_done(s, q)]
                    Self::scanned(y + 1, 0, s) && self.open_state(s, q) implies self.at_most(best, s, q) by {
                    assert(Self::scanned(y as int, x as int, s));
                }
            }
            y = y + 1;
        }
        proof {
            assert forall|s: GridSquare, q: int|
                #![trigger self.state_done(s, q)]
                self.open_state(s, q) implies self.at_most(best, s, q) by {
                assert(Self::scanned(y as int, 0, s));
            }
        }
        best
    }

    closed spec fn inv_base(&self, grid: &Grid) -> bool {
        &&& 0 < self.spec_height() <= crate::grid::MAX_GRID_SIDE
        &&& 0 < self.spec_width() <= crate::grid::MAX_GRID_SIDE
        &&& self.states_len_ok()
        &&& grid.wf()
        &&& self.spec_height() == grid.spec_height()
        &&& self.spec_width() == grid.spec_width()
    }

    #[verifier::opaque]
    closed spec fn inv_sources(&self) -> bool {
        forall|i: int|
            0 <= i < self.sources@.len() ==> self.reached(#[trigger] self.sources@[i], 0)
                && self.state_dist(self.sources@[i], 0) == 0
    }

    closed spec fn state_inv(&self, grid: &Grid, max_distance: int, s: GridSquare, p: int) -> bool {
        &&& self.state_ok(s, p)
        &&& self.state_dist(s, p) <= i32::MAX
        &&& match self.state_pred(s, p) {
            None => true,
            Some(y) => grid.is_free(s) && self.state_dist(s, p) <= max_distance && self.state_done(
                y,
                next_parity(y, s, p),
            ),
        }
    }

    #[verifier::opaque]
    closed spec fn inv_states(&self, grid: &Grid, max_distance: int) -> bool {
        forall|s: GridSquare, p: int| #[trigger]
            self.reached(s, p) ==> self.state_inv(grid, max_distance, s, p)
    }

    #[verifier::opaque]
    closed spec fn inv_done_reached(&self) -> bool {
        forall|s: GridSquare, p: int|
            #![trigger self.state_done(s, p)]
            self.in_grid(s) && 0 <= p < 2 && self.state_done(s, p) ==> self.reached(s, p)
    }

    #[verifier::opaque]
    closed spec fn inv_order(&self) -> bool {
        forall|a: GridSquare, pa: int, b: GridSquare, pb: int|
            #![trigger self.state_done(a, pa), self.state_done(b, pb)]
            self.in_grid(a) && 0 <= pa < 2 && self.state_done(a, pa) && self.open_state(b, pb)
                ==> self.state_dist(a, pa) <= self.state_dist(b, pb)
    }

    /// The step from `(s, p)` to `nb`, if it stays within the budget, reaches
    /// a state at no greater cost.
    closed spec fn relaxed(&self, grid: &Grid, max_distance: int, s: GridSquare, p: int, nb: GridSquare) -> bool {
        grid.is_free(nb) && self.state_dist(s, p) + step_cost(s, nb, p) <= max_distance
                ==> self.reached(nb, next_parity(s, nb, p)) && self.state_dist(
                nb,
                next_parity(s, nb, p),
            ) <= self.state_dist(s, p) + step_cost(s, nb, p)
    }

    /// Every step out of an examined state other than `(cur, cp)` is relaxed.
    #[verifier::opaque]
    closed spec fn inv_closed_except(&self, grid: &Grid, max_distance: int, cur: GridSquare, cp: int) -> bool {
        forall|s: GridSquare, p: int, nb: GridSquare|
            #![trigger self.state_done(s, p), grid.is_free(nb)]
            self.in_grid(s) && 0 <= p < 2 && self.state_done(s, p) && (s != cur || p != cp)
                && is_adjacent(s, nb) ==> self.relaxed(grid, max_distance, s, p, nb)
    }

    /// Like `search_inv`, while the steps out of `(cur, cp)` are relaxed.
    closed spec fn search_inv_except(&self, grid: &Grid, max_distance: int, cur: GridSquare, cp: int) -> bool {
        &&& self.inv_base(grid)
        &&& self.inv_sources()
        &&& self.inv_states(grid, max_distance)
        &&& self.inv_done_reached()
        &&& self.inv_order()
        &&& self.inv_closed_except(grid, max_distance, cur, cp)
    }

    /// What holds between the steps of the search: costs of examined states
    /// are final, lowest first, and their steps were all relaxed. A state
    /// never reached stands in for "no exception".
    closed spec fn search_inv(&self, grid: &Grid, max_distance: int) -> bool {
        self.search_inv_except(grid, max_distance, GridSquare { y: -1i32, x: -1i32 }, 0)
    }

    closed spec fn done_indices(&self) -> Set<int> {
        Set::new(|i: int| 0 <= i < self.states@.len() && self.states@[i].done)
    }

    #[verifier::opaque]
    closed spec fn done_below(&self, c: int) -> bool {
        forall|s: GridSquare, q: int|
            #![trigger self.state_done(s, q)]
            self.in_grid(s) && 0 <= q < 2 && self.state_done(s, q) ==> self.state_dist(s, q) <= c
    }

    /// A search with every source reached at cost 0 and nothing examined.
    fn start(source: &Vec<GridSquare>, grid: &Grid) -> (r: Self)
        requires
            grid.wf(),
            forall|i: int| 0 <= i < source@.len() ==> grid.in_bounds(#[trigger] source@[i]),
        ensures
            forall|m: int| r.search_inv(grid, m),
            r.sources@ == source@,
            r.done_indices() =~= Set::empty(),
    {
        let height = grid.height();
        let width = grid.width();
        proof {
            assert(height * width * 2 <= 0x8000_0000) by (nonlinear_arith)
                requires
                    0 < height <= 32768,
                    0 < width <= 32768,
            ;
        }
        let n: usize = (height as usize) * (width as usize) * 2;
        let mut states: Vec<StateInfo> = Vec::new();
        let mut i: usize = 0;
        while i < n
            invariant
                0 <= i <= n,
                states@.len() == i,
                forall|k: int|
                    0 <= k < i ==> #[trigger] states@[k] == (StateInfo {
                        dist: -1i32,
                        pred: None,
                        done: false,
                    }),
            decreases n - i,
        {
            states.push(StateInfo { dist: -1, pred: None, done: false });
            i = i + 1;
        }
        let mut sources: Vec<GridSquare> = Vec::new();
        let mut k: usize = 0;
        while k < source.len()
            invariant
                0 <= k <= source@.len(),
                sources@ == source@.subrange(0, k as int),
            decreases source@.len() - k,
        {
            sources.push(source[k]);
            k = k + 1;
        }
        let mut paths = ShortestPaths { height, width, sources, states };
        assert(paths.sources@ =~= source@);
        proof {
            assert forall|s: GridSquare, p: int|
                #![trigger paths.info(s, p)]
                paths.in_grid(s) && 0 <= p < 2 implies paths.info(s, p).dist < 0 by {
                paths.lemma_index_of(s, p, s, p);
            }
        }
        let mut k: usize = 0;
        while k < source.len()
            invariant
                grid.wf(),
                forall|i: int| 0 <= i < source@.len() ==> grid.in_bounds(#[trigger] source@[i]),
                paths.height == grid.spec_height(),
                paths.width == grid.spec_width(),
                paths.states_len_ok(),
                paths.sources@ == source@,
                0 <= k <= source@.len(),
                forall|i: int| 0 <= i < paths.states@.len() ==> !(#[trigger] paths.states@[i]).done,
                forall|i: int|
                    0 <= i < k ==> (#[trigger] paths.info(source@[i], 0)).dist == 0
                        && paths.info(source@[i], 0).pred is None,
                forall|s: GridSquare, p: int|
                    #![trigger paths.info(s, p)]
                    paths.in_grid(s) && 0 <= p < 2 ==> paths.info(s, p).dist < 0 || (p == 0
                        && paths.info(s, p).dist == 0 && paths.info(s, p).pred is None
                        && source@.contains(s)),
            decreases source@.len() - k,
        {
            let s = source[k];
            let ghost prev = paths.states@;
            let ghost ix = paths.index(s, 0);
            proof {
                paths.lemma_index_of(s, 0, s, 0);
            }
            paths.set_state(s, 0, StateInfo { dist: 0, pred: None, done: false });
            proof {
                assert(source@[k as int] == s);
                assert forall|i: int| 0 <= i < paths.states@.len() implies !(
                #[trigger] paths.states@[i]).done by {
                    if i != ix {
                        assert(paths.states@[i] == prev[i]);
                    }
                }
            }
            k = k + 1;
        }
        proof {
            assert(paths.done_indices() =~= Set::empty());
            assert forall|m: int| paths.search_inv(grid, m) by {
                reveal(ShortestPaths::inv_sources);
                reveal(ShortestPaths::inv_states);
                reveal(ShortestPaths::inv_done_reached);
                reveal(ShortestPaths::inv_order);
                reveal(ShortestPaths::inv_closed_except);
                assert forall|s: GridSquare, p: int| #[trigger]
                    paths.reached(s, p) implies paths.state_inv(grid, m, s, p) by {
                    assert(paths.info(s, p).dist == 0);
                }
                assert forall|s: GridSquare, p: int|
                    #![trigger paths.state_done(s, p)]
                    paths.in_grid(s) && 0 <= p < 2 implies !paths.state_done(s, p) by {
                    paths.lemma_index_of(s, p, s, p);
                }
            }
        }
        paths
    }

    proof fn lemma_finished(&self, grid: &Grid, max_distance: int)
        requires
            self.search_inv(grid, max_distance),
            forall|s: GridSquare, q: int|
                #![trigger self.state_done(s, q)]
                !self.open_state(s, q),
        ensures
            self.wf(),
            self.spec_height() == grid.spec_height(),
            self.spec_width() == grid.spec_width(),
            forall|i: int|
                0 <= i < self.sources@.len() ==> self.reached(#[trigger] self.sources@[i], 0)
                    && self.state_dist(self.sources@[i], 0) == 0,
            self.closed_under_steps(grid, max_distance),
    {
        reveal(ShortestPaths::inv_sources);
        reveal(ShortestPaths::inv_states);
        reveal(ShortestPaths::inv_closed_except);
        reveal(ShortestPaths::all_states_ok);
        assert forall|s: GridSquare, p: int| #[trigger] self.reached(s, p) implies self.state_ok(s, p) by {
            assert(self.state_inv(grid, max_distance, s, p));
        }
        assert forall|s: GridSquare, p: int| #[trigger]
            self.reached(s, p) && self.state_pred(s, p).is_some() implies grid.is_free(s)
            && self.state_dist(s, p) <= max_distance by {
            assert(self.state_inv(grid, max_distance, s, p));
        }
        assert forall|s: GridSquare, p: int, nb: GridSquare|
            #![trigger self.reached(s, p), grid.is_free(nb), is_adjacent(s, nb)]
            self.reached(s, p) && is_adjacent(s, nb) && grid.is_free(nb) && self.state_dist(s, p)
                + step_cost(s, nb, p) <= max_distance implies self.reached(nb, next_parity(s, nb, p))
                && self.state_dist(nb, next_parity(s, nb, p)) <= self.state_dist(s, p) + step_cost(
                s,
                nb,
                p,
            ) by {
            assert(!self.open_state(s, p));
            assert(self.state_done(s, p));
            assert(self.relaxed(grid, max_distance, s, p, nb));
        }
    }

    /// Relaxes the step from the examined state `(cur, p)` to `nb`.
    fn relax(
        &mut self,
        grid: &Grid,
        max_distance: i32,
        cur: GridSquare,
        p: usize,
        cur_dist: i32,
        nb: GridSquare,
    )
        requires
            old(self).search_inv_except(grid, max_distance as int, cur, p as int),
            old(self).in_grid(cur),
            p < 2,
            old(self).state_done(cur, p as int),
            old(self).state_dist(cur, p as int) == cur_dist,
            0 <= cur_dist,
            old(self).done_below(cur_dist as int),
            is_adjacent(cur, nb),
        ensures
            final(self).search_inv_except(grid, max_distance as int, cur, p as int),
            final(self).done_below(cur_dist as int),
            final(self).relaxed(grid, max_distance as int, cur, p as int, nb),
            forall|b: GridSquare|
                #![trigger final(self).relaxed(grid, max_distance as int, cur, p as int, b)]
                old(self).relaxed(grid, max_distance as int, cur, p as int, b) ==> final(self).relaxed(grid, max_distance as int, cur, p as int, b),
            final(self).sources == old(self).sources,
            final(self).info(cur, p as int) == old(self).info(cur, p as int),
            final(self).done_indices() == old(self).done_indices(),
            final(self).states@.len() == old(self).states@.len(),
    {
        if !grid.free_square(&nb) {
            return ;
        }
        let diagonal = is_diagonal_neighbor(cur, nb);
        let np: usize = if diagonal {
            1 - p
        } else {
            p
        };
        let cost: i64 = if diagonal {
            1 + p as i64
        } else {
            1
        };
        let new_dist: i64 = cur_dist as i64 + cost;
        if new_dist > max_distance as i64 {
            return ;
        }
        let old_info = self.get_state(nb, np);
        if old_info.dist >= 0 && new_dist >= old_info.dist as i64 {
            return ;
        }
        let ghost before = *self;
        let ghost m = max_distance as int;
        proof {
            reveal(ShortestPaths::done_below);
            reveal(ShortestPaths::inv_done_reached);
            assert(!before.state_done(nb, np as int));
            assert(next_parity(cur, nb, np as int) == p as int);
        }
        self.set_state(nb, np, StateInfo { dist: new_dist as i32, pred: Some(cur), done: false });
        proof {
            before.lemma_index_of(nb, np as int, nb, np as int);
            assert(self.done_indices() =~= before.done_indices());
            reveal(ShortestPaths::inv_states);
            assert(before.state_inv(grid, m, cur, p as int));
            self.lemma_relax_step(before, grid, m, cur, p as int, cur_dist as int, nb, np as int);
        }
    }

    proof fn lemma_relax_step(
        &self,
        before: Self,
        grid: &Grid,
        m: int,
        cur: GridSquare,
        p: int,
        cur_dist: int,
        nb: GridSquare,
        np: int,
    )
        requires
            before.search_inv_except(grid, m, cur, p),
            before.in_grid(cur),
            0 <= p < 2,
            before.state_done(cur, p),
            before.state_dist(cur, p) == cur_dist,
            0 <= cur_dist,
            before.done_below(cur_dist),
            is_adjacent(cur, nb),
            grid.is_free(nb),
            np == next_parity(cur, nb, p),
            cur_dist + step_cost(cur, nb, p) <= m,
            m <= i32::MAX,
            !before.state_done(nb, np),
            !before.reached(nb, np) || cur_dist + step_cost(cur, nb, p) < before.state_dist(nb, np),
            self.height == before.height,
            self.width == before.width,
            self.sources == before.sources,
            self.states_len_ok(),
            self.info(nb, np) == (StateInfo {
                dist: (cur_dist + step_cost(cur, nb, p)) as i32,
                pred: Some(cur),
                done: false,
            }),
            forall|s: GridSquare, q: int|
                #![trigger self.info(s, q)]
                before.in_grid(s) && 0 <= q < 2 && (s != nb || q != np) ==> self.info(s, q)
                    == before.info(s, q),
        ensures
            self.search_inv_except(grid, m, cur, p),
            self.done_below(cur_dist),
            self.relaxed(grid, m, cur, p, nb),
            forall|b: GridSquare|
                #![trigger self.relaxed(grid, m, cur, p, b)]
                before.relaxed(grid, m, cur, p, b) ==> self.relaxed(grid, m, cur, p, b),
    {
        assert(self.info(cur, p) == before.info(cur, p));
        assert(self.in_grid(nb));
        assert(self.state_dist(nb, np) == cur_dist + step_cost(cur, nb, p));
        assert(next_parity(cur, nb, np) == p);
        assert(self.inv_sources()) by {
            reveal(ShortestPaths::inv_sources);
            assert forall|i: int|
                0 <= i < self.sources@.len() implies self.reached(#[trigger] self.sources@[i], 0)
                && self.state_dist(self.sources@[i], 0) == 0 by {
                assert(before.reached(self.sources@[i], 0));
            }
        }
        assert(self.inv_states(grid, m)) by {
            reveal(ShortestPaths::inv_states);
            assert forall|s: GridSquare, q: int| #[trigger]
                self.reached(s, q) implies self.state_inv(grid, m, s, q) by {
                if s != nb || q != np {
                    assert(before.reached(s, q));
                    assert(before.state_inv(grid, m, s, q));
                    if let Some(y) = before.state_pred(s, q) {
                        let yq = next_parity(y, s, q);
                        assert(before.state_done(y, yq));
                        assert(before.in_grid(y));
                        assert(self.info(y, yq) == before.info(y, yq));
                    }
                } else {
                    assert(self.state_pred(s, q) == Some(cur));
                    assert(self.reached(cur, p));
                    assert(self.state_ok(s, q));
                }
            }
        }
        assert(self.inv_done_reached()) by {
            reveal(ShortestPaths::inv_done_reached);
            assert forall|s: GridSquare, q: int|
                #![trigger self.state_done(s, q)]
                self.in_grid(s) && 0 <= q < 2 && self.state_done(s, q) implies self.reached(s, q) by {
                assert(before.state_done(s, q));
            }
        }
        assert(self.done_below(cur_dist)) by {
            reveal(ShortestPaths::done_below);
            assert forall|s: GridSquare, q: int|
                #![trigger self.state_done(s, q)]
                self.in_grid(s) && 0 <= q < 2 && self.state_done(s, q) implies self.state_dist(s, q) <= cur_dist by {
                assert(before.state_done(s, q));
            }
        }
        assert(self.inv_order()) by {
            reveal(ShortestPaths::inv_order);
            reveal(ShortestPaths::done_below);
            assert forall|a: GridSquare, pa: int, b: GridSquare, pb: int|
                #![trigger self.state_done(a, pa), self.state_done(b, pb)]
                self.in_grid(a) && 0 <= pa < 2 && self.state_done(a, pa) && self.open_state(b, pb)
                    implies self.state_dist(a, pa) <= self.state_dist(b, pb) by {
                assert(a != nb || pa != np);
                assert(self.info(a, pa) == before.info(a, pa));
                assert(before.state_done(a, pa));
                if b != nb || pb != np {
                    assert(self.info(b, pb) == before.info(b, pb));
                    assert(before.open_state(b, pb));
                } else {
                    assert(before.state_dist(a, pa) <= cur_dist);
                }
            }
        }
        assert(self.inv_closed_except(grid, m, cur, p)) by {
            reveal(ShortestPaths::inv_closed_except);
            assert forall|s: GridSquare, q: int, b: GridSquare|
                #![trigger self.state_done(s, q), grid.is_free(b)]
                self.in_grid(s) && 0 <= q < 2 && self.state_done(s, q) && (s != cur || q != p)
                    && is_adjacent(s, b) implies self.relaxed(grid, m, s, q, b) by {
                assert(before.state_done(s, q));
                assert(before.relaxed(grid, m, s, q, b));
                assert(self.info(s, q) == before.info(s, q));
            }
        }
        assert forall|b: GridSquare|
            #![trigger self.relaxed(grid, m, cur, p, b)]
            before.relaxed(grid, m, cur, p, b) implies self.relaxed(grid, m, cur, p, b) by {}
    }

    /// Marks the state `(cur, p)` examined and relaxes every step out of it.
    fn examine(&mut self, grid: &Grid, max_distance: i32, cur: GridSquare, p: usize)
        requires
            old(self).search_inv(grid, max_distance as int),
            p < 2,
            old(self).open_state(cur, p as int),
            forall|s: GridSquare, q: int|
                #![trigger old(self).state_done(s, q)]
                old(self).open_state(s, q) ==> old(self).state_dist(cur, p as int) <= old(self).state_dist(s, q),
            old(self).done_indices().finite(),
        ensures
            final(self).search_inv(grid, max_distance as int),
            final(self).sources == old(self).sources,
            final(self).states@.len() == old(self).states@.len(),
            final(self).done_indices() == old(self).done_indices().insert(old(self).index(cur, p as int)),
            !old(self).done_indices().contains(old(self).index(cur, p as int)),
            final(self).done_indices().finite(),
            final(self).done_indices().len() <= final(self).states@.len(),
    {
        let info = self.get_state(cur, p);
        let ghost before = *self;
        let ghost m = max_distance as int;
        self.set_state(cur, p, StateInfo { dist: info.dist, pred: info.pred, done: true });
        proof {
            let ci = before.index(cur, p as int);
            before.lemma_index_of(cur, p as int, cur, p as int);
            assert(!before.states@[ci].done);
            assert(self.done_indices() =~= before.done_indices().insert(ci));
            assert(self.done_indices().subset_of(
                vstd::set_lib::set_int_range(0, self.states@.len() as int),
            ));
            vstd::set_lib::lemma_int_range(0, self.states@.len() as int);
            vstd::set_lib::lemma_len_subset(
                self.done_indices(),
                vstd::set_lib::set_int_range(0, self.states@.len() as int),
            );
            self.lemma_mark_done(before, grid, m, cur, p as int);
            self.lemma_mark_done_states(before, grid, m, cur, p as int);
            self.lemma_mark_done_order(before, grid, m, cur, p as int);
        }
        let neighbors = get_neighbors(cur);
        let mut j: usize = 0;
        while j < 8
            invariant
                0 <= j <= 8,
                neighbors@.len() == 8,
                forall|i: int| 0 <= i < 8 ==> is_adjacent(cur, #[trigger] neighbors@[i]),
                forall|b: GridSquare| is_adjacent(cur, b) ==> neighbors@.contains(b),
                self.in_grid(cur),
                p < 2,
                self.state_done(cur, p as int),
                self.state_dist(cur, p as int) == info.dist,
                0 <= info.dist,
                self.done_below(info.dist as int),
                m == max_distance as int,
                self.search_inv_except(grid, m, cur, p as int),
                self.sources == before.sources,
                self.states@.len() == before.states@.len(),
                self.done_indices() == before.done_indices().insert(before.index(cur, p as int)),
                forall|i: int|
                    #![trigger neighbors@[i]]
                    0 <= i < j ==> self.relaxed(grid, m, cur, p as int, neighbors@[i]),
            decreases 8 - j,
        {
            self.relax(grid, max_distance, cur, p, info.dist, neighbors[j]);
            j = j + 1;
        }
        proof {
            assert forall|b: GridSquare| is_adjacent(cur, b) implies self.relaxed(grid, m, cur, p as int, b) by {
                let i = choose|i: int| 0 <= i < 8 && neighbors@[i] == b;
                assert(self.relaxed(grid, m, cur, p as int, neighbors@[i]));
            }
            self.lemma_close(grid, m, cur, p as int);
        }
    }

    proof fn lemma_mark_done(&self, before: Self, grid: &Grid, m: int, cur: GridSquare, p: int)
        requires
            before.search_inv(grid, m),
            0 <= p < 2,
            before.open_state(cur, p),
            forall|s: GridSquare, q: int|
                #![trigger before.state_done(s, q)]
                before.open_state(s, q) ==> before.state_dist(cur, p) <= before.state_dist(s, q),
            self.height == before.height,
            self.width == before.width,
            self.sources == before.sources,
            self.states_len_ok(),
            self.info(cur, p) == (StateInfo {
                dist: before.info(cur, p).dist,
                pred: before.info(cur, p).pred,
                done: true,
            }),
            forall|s: GridSquare, q: int|
                #![trigger self.info(s, q)]
                before.in_grid(s) && 0 <= q < 2 && (s != cur || q != p) ==> self.info(s, q)
                    == before.info(s, q),
        ensures
            self.inv_sources(),
            self.inv_done_reached(),
            0 <= self.state_dist(cur, p) <= i32::MAX,
    {
        let d = before.state_dist(cur, p);
        assert(before.state_inv(grid, m, cur, p)) by {
            reveal(ShortestPaths::inv_states);
        }
        assert(self.inv_sources()) by {
            reveal(ShortestPaths::inv_sources);
            assert forall|i: int|
                0 <= i < self.sources@.len() implies self.reached(#[trigger] self.sources@[i], 0)
                && self.state_dist(self.sources@[i], 0) == 0 by {
                assert(before.reached(self.sources@[i], 0));
            }
        }
        assert(self.inv_done_reached()) by {
            reveal(ShortestPaths::inv_done_reached);
            assert forall|s: GridSquare, q: int|
                #![trigger self.state_done(s, q)]
                self.in_grid(s) && 0 <= q < 2 && self.state_done(s, q) implies self.reached(s, q) by {
                if s != cur || q != p {
                    assert(before.state_done(s, q));
                }
            }
        }
    }

    proof fn lemma_mark_done_states(&self, before: Self, grid: &Grid, m: int, cur: GridSquare, p: int)
        requires
            before.search_inv(grid, m),
            0 <= p < 2,
            before.open_state(cur, p),
            forall|s: GridSquare, q: int|
                #![trigger before.state_done(s, q)]
                before.open_state(s, q) ==> before.state_dist(cur, p) <= before.state_dist(s, q),
            self.height == before.height,
            self.width == before.width,
            self.sources == before.sources,
            self.states_len_ok(),
            self.info(cur, p) == (StateInfo {
                dist: before.info(cur, p).dist,
                pred: before.info(cur, p).pred,
                done: true,
            }),
            forall|s: GridSquare, q: int|
                #![trigger self.info(s, q)]
                before.in_grid(s) && 0 <= q < 2 && (s != cur || q != p) ==> self.info(s, q)
                    == before.info(s, q),
        ensures
            self.inv_states(grid, m),
    {
        assert(self.inv_states(grid, m)) by {
            reveal(ShortestPaths::inv_states);
            assert forall|s: GridSquare, q: int| #[trigger]
                self.reached(s, q) implies self.state_inv(grid, m, s, q) by {
                assert(before.reached(s, q));
                assert(before.state_inv(grid, m, s, q));
                if let Some(y) = before.state_pred(s, q) {
                    let yq = next_parity(y, s, q);
                    assert(before.reached(y, yq));
                }
            }
        }
    }

    proof fn lemma_mark_done_order(&self, before: Self, grid: &Grid, m: int, cur: GridSquare, p: int)
        requires
            before.search_inv(grid, m),
            0 <= p < 2,
            before.open_state(cur, p),
            forall|s: GridSquare, q: int|
                #![trigger before.state_done(s, q)]
                before.open_state(s, q) ==> before.state_dist(cur, p) <= before.state_dist(s, q),
            self.height == before.height,
            self.width == before.width,
            self.sources == before.sources,
            self.states_len_ok(),
            self.info(cur, p) == (StateInfo {
                dist: before.info(cur, p).dist,
                pred: before.info(cur, p).pred,
                done: true,
            }),
            forall|s: GridSquare, q: int|
                #![trigger self.info(s, q)]
                before.in_grid(s) && 0 <= q < 2 && (s != cur || q != p) ==> self.info(s, q)
                    == before.info(s, q),
        ensures
            self.inv_order(),
            self.inv_closed_except(grid, m, cur, p),
            self.done_below(self.state_dist(cur, p)),
            0 <= self.state_dist(cur, p) <= i32::MAX,
    {
        let d = before.state_dist(cur, p);
        assert(before.state_inv(grid, m, cur, p)) by {
            reveal(ShortestPaths::inv_states);
        }
        assert(self.done_below(d)) by {
            reveal(ShortestPaths::done_below);
            reveal(ShortestPaths::inv_order);
            assert forall|s: GridSquare, q: int|
                #![trigger self.state_done(s, q)]
                self.in_grid(s) && 0 <= q < 2 && self.state_done(s, q) implies self.state_dist(s, q) <= d by {
                if s != cur || q != p {
                    assert(before.state_done(s, q));
                }
            }
        }
        assert(self.inv_order()) by {
            reveal(ShortestPaths::inv_order);
            assert forall|a: GridSquare, pa: int, b: GridSquare, pb: int|
                #![trigger self.state_done(a, pa), self.state_done(b, pb)]
                self.in_grid(a) && 0 <= pa < 2 && self.state_done(a, pa) && self.open_state(b, pb)
                    implies self.state_dist(a, pa) <= self.state_dist(b, pb) by {
                assert(b != cur || pb != p);
                assert(self.info(b, pb) == before.info(b, pb));
                assert(before.open_state(b, pb));
                if a != cur || pa != p {
                    assert(self.info(a, pa) == before.info(a, pa));
                    assert(before.state_done(a, pa));
                }
            }
        }
        assert(self.inv_closed_except(grid, m, cur, p)) by {
            reveal(ShortestPaths::inv_closed_except);
            let none = GridSquare { y: -1i32, x: -1i32 };
            assert forall|s: GridSquare, q: int, b: GridSquare|
                #![trigger self.state_done(s, q), grid.is_free(b)]
                self.in_grid(s) && 0 <= q < 2 && self.state_done(s, q) && (s != cur || q != p)
                    && is_adjacent(s, b) implies self.relaxed(grid, m, s, q, b) by {
                assert(before.state_done(s, q));
                assert(s != none);
                assert(before.relaxed(grid, m, s, q, b));
                if self.reached(b, next_parity(s, b, q)) || before.reached(b, next_parity(s, b, q)) {
                    if b != cur || next_parity(s, b, q) != p {
                        assert(self.info(b, next_parity(s, b, q)) == before.info(b, next_parity(s, b, q)));
                    }
                }
            }
        }
    }

    proof fn lemma_close(&self, grid: &Grid, m: int, cur: GridSquare, p: int)
        requires
            self.search_inv_except(grid, m, cur, p),
            forall|b: GridSquare| is_adjacent(cur, b) ==> self.relaxed(grid, m, cur, p, b),
        ensures
            self.search_inv(grid, m),
    {
        reveal(ShortestPaths::inv_closed_except);
        let none = GridSquare { y: -1i32, x: -1i32 };
        assert forall|s: GridSquare, q: int, b: GridSquare|
            #![trigger self.state_done(s, q), grid.is_free(b)]
            self.in_grid(s) && 0 <= q < 2 && self.state_done(s, q) && (s != none || q != 0)
                && is_adjacent(s, b) implies self.relaxed(grid, m, s, q, b) by {
            if s == cur && q == p {
            } else {
                assert(self.relaxed(grid, m, s, q, b));
            }
        }
    }

    /// Cheapest cost to `square`, if the search reached it.
    pub fn distance_to(&self, square: GridSquare) -> (r: Option<i32>)
        requires
            self.wf(),
        ensures
            r.is_some() == self.best_distance(square).is_some(),
            r.is_some() ==> r.unwrap() == self.best_distance(square).unwrap(),
    {
        if square.y < 0 || square.y >= self.height || square.x < 0 || square.x >= self.width {
            return None;
        }
        let even = self.get_state(square, 0);
        let odd = self.get_state(square, 1);
        if even.dist >= 0 && (odd.dist < 0 || even.dist <= odd.dist) {
            Some(even.dist)
        } else if odd.dist >= 0 {
            Some(odd.dist)
        } else {
            None
        }
    }

    fn best_parity(&self, square: GridSquare) -> (r: usize)
        requires
            self.wf(),
            self.best_distance(square).is_some(),
        ensures
            r < 2,
            self.reached(square, r as int),
            self.best_distance(square) == Some(self.state_dist(square, r as int)),
    {
        let even = self.get_state(square, 0);
        let odd = self.get_state(square, 1);
        if even.dist >= 0 && (odd.dist < 0 || even.dist <= odd.dist) {
            0
        } else {
            1
        }
    }

    /// All squares the search reached, row by row.
    pub fn reachable_squares(&self) -> (r: Vec<GridSquare>)
        requires
            self.wf(),
        ensures
            forall|s: GridSquare| r@.contains(s) <==> self.best_distance(s).is_some(),
            r@.no_duplicates(),
    {
        let mut result: Vec<GridSquare> = Vec::new();
        let mut y: i32 = 0;
        while y < self.height
            invariant
                self.wf(),
                0 <= y <= self.height,
                forall|s: GridSquare|
                    result@.contains(s) <==> (self.best_distance(s).is_some() && s.y < y),
                result@.no_duplicates(),
            decreases self.height - y,
        {
            let mut x: i32 = 0;
            while x < self.width
                invariant
                    self.wf(),
                    0 <= y < self.height,
                    0 <= x <= self.width,
                    forall|s: GridSquare|
                        result@.contains(s) <==> (self.best_distance(s).is_some() && (s.y < y || (
                        s.y == y && s.x < x))),
                    result@.no_duplicates(),
                decreases self.width - x,
            {
                let sq = GridSquare { y, x };
                if self.distance_to(sq).is_some() {
                    let ghost old_result = result@;
                    result.push(sq);
                    proof {
                        assert(!old_result.contains(sq));
                        assert forall|s: GridSquare|
                            result@.contains(s) <==> (self.best_distance(s).is_some() && (s.y < y
                                || (s.y == y && s.x < x + 1))) by {
                            if result@.contains(s) && s != sq {
                                let i = choose|i: int| 0 <= i < result@.len() && result@[i] == s;
                                assert(old_result[i] == s);
                            }
                            if old_result.contains(s) {
                                let i = choose|i: int|
                                    0 <= i < old_result.len() && old_result[i] == s;
                                assert(result@[i] == s);
                            }
                            if s == sq {
                                assert(result@[result@.len() - 1] == s);
                            }
                        }
                    }
                }
                x = x + 1;
            }
            y = y + 1;
        }
        result
    }
}

} // verus!

verus! {

/// Cheapest walks from `source` over free squares, where straight steps cost
/// 1 and diagonal steps cost 1 and 2 alternately, up to a total cost of
/// `max_distance`. Sources are reached at cost 0 whatever their tile.
pub fn find_all_shortest_paths(source: &Vec<GridSquare>, max_distance: i32, grid: &Grid) -> (r:
    ShortestPaths)
    requires
        grid.wf(),
        forall|i: int| 0 <= i < source@.len() ==> grid.in_bounds(#[trigger] source@[i]),
    ensures
        r.wf(),
        r.spec_height() == grid.spec_height(),
        r.spec_width() == grid.spec_width(),
        r.source_squares() == source@,
        forall|i: int|
            0 <= i < source@.len() ==> r.reached(#[trigger] source@[i], 0) && r.state_dist(
                source@[i],
                0,
            ) == 0,
        r.closed_under_steps(grid, max_distance as int),
{
    let mut paths = ShortestPaths::start(source, grid);
    let ghost max_d = max_distance as int;
    loop
        invariant
            max_d == max_distance as int,
            paths.search_inv(grid, max_d),
            paths.sources@ == source@,
            paths.done_indices().finite(),
            paths.done_indices().len() <= paths.states@.len(),
        ensures
            paths.search_inv(grid, max_d),
            paths.sources@ == source@,
            forall|s: GridSquare, q: int|
                #![trigger paths.state_done(s, q)]
                !paths.open_state(s, q),
        decreases paths.states@.len() - paths.done_indices().len(),
    {
        let next = paths.find_next();
        match next {
            None => break,
            Some(b) => {
                paths.examine(grid, max_distance, b.0, b.1);
            },
        }
    }
    proof {
        paths.lemma_finished(grid, max_d);
    }
    paths
}

} // verus!

verus! {

fn reversed(v: &Vec<GridSquare>) -> (r: Vec<GridSquare>)
    ensures
        r@.len() == v@.len(),
        forall|i: int| 0 <= i < v@.len() ==> #[trigger] r@[i] == v@[v@.len() - 1 - i],
{
    let n = v.len();
    let mut result: Vec<GridSquare> = Vec::new();
    let mut k: usize = 0;
    while k < n
        invariant
            n == v@.len(),
            0 <= k <= n,
            result@.len() == k,
            forall|i: int| 0 <= i < k ==> #[trigger] result@[i] == v@[n - 1 - i],
        decreases n - k,
    {
        result.push(v[n - 1 - k]);
        k = k + 1;
    }
    result
}

/// `path` follows recorded predecessors: with `par[i]` the parity at
/// `path[i]`, each square is the predecessor of the next one in its state,
/// and each state's cost is the previous one's plus the step.
pub open spec fn follows_predecessors(paths: ShortestPaths, path: Seq<GridSquare>, par: Seq<int>) -> bool {
    &&& par.len() == path.len()
    &&& forall|i: int|
        #![trigger path[i]]
        0 <= i < path.len() ==> paths.reached(path[i], par[i])
    &&& forall|i: int|
        #![trigger path[i], par[i]]
        1 <= i < path.len() ==> {
            &&& paths.state_pred(path[i], par[i]) == Some(path[i - 1])
            &&& par[i - 1] == next_parity(path[i - 1], path[i], par[i])
            &&& paths.state_dist(path[i], par[i]) == paths.state_dist(path[i - 1], par[i - 1])
                + step_cost(path[i - 1], path[i], par[i - 1])
        }
}

proof fn lemma_walk_state_of_chain(paths: ShortestPaths, path: Seq<GridSquare>, par: Seq<int>, i: int)
    requires
        follows_predecessors(paths, path, par),
        path.len() >= 1,
        par[0] == 0,
        paths.state_dist(path[0], 0) == 0,
        0 <= i < path.len(),
    ensures
        walk_state(path.subrange(0, i + 1)) == (paths.state_dist(path[i], par[i]), par[i]),
    decreases i,
{
    if i > 0 {
        lemma_walk_state_of_chain(paths, path, par, i - 1);
        let w = path.subrange(0, i + 1);
        assert(w.drop_last() == path.subrange(0, i));
        assert(w[w.len() - 2] == path[i - 1] && w[w.len() - 1] == path[i]);
        assert(par[i - 1] == next_parity(path[i - 1], path[i], par[i]));
        assert(next_parity(path[i - 1], path[i], par[i - 1]) == par[i]);
    }
}

impl ShortestPaths {
    /// The state before `(square, parity)` on its recorded walk; `None` at a
    /// source.
    fn state_back(&self, square: GridSquare, parity: usize) -> (r: Option<(GridSquare, usize)>)
        requires
            self.wf(),
            self.reached(square, parity as int),
        ensures
            r is None ==> self.state_pred(square, parity as int) is None && self.state_dist(square, parity as int) == 0
                && parity == 0 && self.source_squares().contains(square),
            r matches Some(b) ==> b.1 < 2 && self.state_pred(square, parity as int) == Some(b.0)
                && b.1 == next_parity(b.0, square, parity as int) && self.reached(b.0, b.1 as int)
                && self.state_dist(square, parity as int) == self.state_dist(b.0, b.1 as int) + step_cost(
                b.0,
                square,
                b.1 as int,
            ),
    {
        let info = self.get_state(square, parity);
        proof {
            reveal(ShortestPaths::all_states_ok);
        }
        assert(self.state_ok(square, parity as int));
        match info.pred {
            Some(y) => {
                let q: usize = if y.y != square.y && y.x != square.x {
                    1 - parity
                } else {
                    parity
                };
                Some((y, q))
            },
            None => None,
        }
    }
}

/// A cheapest path to `target` if the search reached it: from a source,
/// through the recorded predecessors of the target's cheapest state, so
/// that the walk costs exactly the target's distance.
pub fn extract_shortest_path(paths: &ShortestPaths, target: GridSquare) -> (r: Option<
    Vec<GridSquare>,
>)
    requires
        paths.wf(),
    ensures
        r.is_some() == paths.best_distance(target).is_some(),
        r matches Some(v) ==> {
            &&& v@.len() >= 1
            &&& v@.last() == target
            &&& paths.source_squares().contains(v@[0])
            &&& forall|i: int|
                0 <= i < v@.len() - 1 ==> is_adjacent(#[trigger] v@[i], v@[i + 1])
            &&& walk_state(v@).0 == paths.best_distance(target).unwrap()
            &&& exists|par: Seq<int>|
                #![trigger follows_predecessors(*paths, v@, par)]
                follows_predecessors(*paths, v@, par) && par[0] == 0 && paths.best_distance(target)
                    == Some(paths.state_dist(target, par[v@.len() - 1]))
        },
{
    if paths.distance_to(target).is_none() {
        return None;
    }
    let p0 = paths.best_parity(target);
    let mut backwards: Vec<GridSquare> = Vec::new();
    backwards.push(target);
    let ghost mut pars: Seq<int> = seq![p0 as int];
    let mut cur = target;
    let mut p = p0;
    loop
        invariant
            paths.wf(),
            backwards@.len() >= 1,
            pars.len() == backwards@.len(),
            backwards@[0] == target,
            pars[0] == p0,
            backwards@.last() == cur,
            pars.last() == p,
            p < 2,
            paths.reached(cur, p as int),
            forall|i: int|
                #![trigger backwards@[i]]
                0 <= i < backwards@.len() ==> paths.reached(backwards@[i], pars[i]),
            forall|i: int|
                #![trigger backwards@[i], pars[i]]
                0 <= i < backwards@.len() - 1 ==> {
                    &&& paths.state_pred(backwards@[i], pars[i]) == Some(backwards@[i + 1])
                    &&& pars[i + 1] == next_parity(backwards@[i + 1], backwards@[i], pars[i])
                    &&& paths.state_dist(backwards@[i], pars[i]) == paths.state_dist(
                        backwards@[i + 1],
                        pars[i + 1],
                    ) + step_cost(backwards@[i + 1], backwards@[i], pars[i + 1])
                },
        ensures
            backwards@.len() >= 1,
            pars.len() == backwards@.len(),
            backwards@[0] == target,
            pars[0] == p0,
            backwards@.last() == cur,
            pars.last() == 0,
            paths.state_dist(cur, 0) == 0,
            paths.source_squares().contains(cur),
            forall|i: int|
                #![trigger backwards@[i]]
                0 <= i < backwards@.len() ==> paths.reached(backwards@[i], pars[i]),
            forall|i: int|
                #![trigger backwards@[i], pars[i]]
                0 <= i < backwards@.len() - 1 ==> {
                    &&& paths.state_pred(backwards@[i], pars[i]) == Some(backwards@[i + 1])
                    &&& pars[i + 1] == next_parity(backwards@[i + 1], backwards@[i], pars[i])
                    &&& paths.state_dist(backwards@[i], pars[i]) == paths.state_dist(
                        backwards@[i + 1],
                        pars[i + 1],
                    ) + step_cost(backwards@[i + 1], backwards@[i], pars[i + 1])
                },
        decreases paths.state_dist(cur, p as int),
    {
        let (prev, q) = match paths.state_back(cur, p) {
            Some(b) => b,
            None => {
                break;
            },
        };
        let ghost old_back = backwards@;
        let ghost old_pars = pars;
        backwards.push(prev);
        proof {
            pars = pars.push(q as int);
            assert forall|i: int|
                #![trigger backwards@[i]]
                0 <= i < backwards@.len() implies paths.reached(backwards@[i], pars[i]) by {
                if i < old_back.len() {
                    assert(backwards@[i] == old_back[i] && pars[i] == old_pars[i]);
                }
            }
            assert forall|i: int|
                #![trigger backwards@[i], pars[i]]
                0 <= i < backwards@.len() - 1 implies {
                    &&& paths.state_pred(backwards@[i], pars[i]) == Some(backwards@[i + 1])
                    &&& pars[i + 1] == next_parity(backwards@[i + 1], backwards@[i], pars[i])
                    &&& paths.state_dist(backwards@[i], pars[i]) == paths.state_dist(
                        backwards@[i + 1],
                        pars[i + 1],
                    ) + step_cost(backwards@[i + 1], backwards@[i], pars[i + 1])
                } by {
                assert(backwards@[i] == old_back[i] && pars[i] == old_pars[i]);
                if i < old_back.len() - 1 {
                    assert(backwards@[i + 1] == old_back[i + 1] && pars[i + 1] == old_pars[i + 1]);
                }
            }
        }
        cur = prev;
        p = q;
    }
    let result = reversed(&backwards);
    proof {
        let n = backwards@.len();
        let par = Seq::new(n, |i: int| pars[n - 1 - i]);
        assert forall|i: int|
            #![trigger result@[i]]
            0 <= i < result@.len() implies paths.reached(result@[i], par[i]) by {
            assert(result@[i] == backwards@[n - 1 - i]);
        }
        assert forall|i: int|
            #![trigger result@[i], par[i]]
            1 <= i < result@.len() implies {
                &&& paths.state_pred(result@[i], par[i]) == Some(result@[i - 1])
                &&& par[i - 1] == next_parity(result@[i - 1], result@[i], par[i])
                &&& paths.state_dist(result@[i], par[i]) == paths.state_dist(result@[i - 1], par[i - 1])
                    + step_cost(result@[i - 1], result@[i], par[i - 1])
            } by {
            let k = n - 1 - i;
            assert(result@[i] == backwards@[k]);
            assert(result@[i - 1] == backwards@[k + 1]);
        }
        assert(follows_predecessors(*paths, result@, par));
        assert(result@[0] == backwards@[n - 1]);
        assert(result@.last() == backwards@[0]);
        assert forall|i: int| 0 <= i < result@.len() - 1 implies is_adjacent(#[trigger] result@[i], result@[i + 1]) by {
            reveal(ShortestPaths::all_states_ok);
            assert(paths.state_ok(result@[i + 1], par[i + 1]));
        }
        lemma_walk_state_of_chain(*paths, result@, par, n - 1);
        assert(result@.subrange(0, n as int) == result@);
    }
    Some(result)
}

} // verus!

verus! {

/// A walk over the grid: each step goes to an adjacent free square.
pub open spec fn is_walk(grid: &Grid, w: Seq<GridSquare>) -> bool {
    &&& w.len() >= 1
    &&& forall|i: int|
        0 <= i < w.len() - 1 ==> is_adjacent(#[trigger] w[i], w[i + 1]) && grid.is_free(w[i + 1])
}

/// Cost of a walk and parity of its diagonal steps, from a start at even
/// parity.
pub open spec fn walk_state(w: Seq<GridSquare>) -> (int, int)
    decreases w.len(),
{
    if w.len() <= 1 {
        (0, 0)
    } else {
        let prev = walk_state(w.drop_last());
        let a = w[w.len() - 2];
        let b = w[w.len() - 1];
        (prev.0 + step_cost(a, b, prev.1), next_parity(a, b, prev.1))
    }
}

proof fn lemma_walk_state_bounds(w: Seq<GridSquare>)
    ensures
        0 <= walk_state(w).1 < 2,
        0 <= walk_state(w).0,
        w.len() > 1 ==> walk_state(w.drop_last()).0 < walk_state(w).0,
    decreases w.len(),
{
    if w.len() > 1 {
        lemma_walk_state_bounds(w.drop_last());
    }
}

/// No walk within the budget is missed: a walk from a source of the search
/// that costs at most `max_distance` ends in a reached state no costlier
/// than the walk.
pub proof fn lemma_walks_are_covered(p: ShortestPaths, grid: &Grid, max_distance: int, w: Seq<GridSquare>)
    requires
        p.closed_under_steps(grid, max_distance),
        is_walk(grid, w),
        p.reached(w[0], 0),
        p.state_dist(w[0], 0) == 0,
        walk_state(w).0 <= max_distance,
        p.spec_height() == grid.spec_height(),
        p.spec_width() == grid.spec_width(),
    ensures
        p.reached(w.last(), walk_state(w).1),
        p.state_dist(w.last(), walk_state(w).1) <= walk_state(w).0,
    decreases w.len(),
{
    lemma_walk_state_bounds(w);
    if w.len() > 1 {
        let v = w.drop_last();
        assert forall|i: int| 0 <= i < v.len() - 1 implies is_adjacent(#[trigger] v[i], v[i + 1])
            && grid.is_free(v[i + 1]) by {
            assert(v[i] == w[i] && v[i + 1] == w[i + 1]);
        }
        lemma_walks_are_covered(p, grid, max_distance, v);
        let a = w[w.len() - 2];
        let b = w[w.len() - 1];
        assert(v.last() == a);
        assert(is_adjacent(w[w.len() - 2], w[w.len() - 2 + 1]) && grid.is_free(w[w.len() - 2 + 1]));
        let q = walk_state(v).1;
        assert(p.reached(a, q));
        assert(grid.is_free(b));
        assert(is_adjacent(a, b));
    }
}

/// Every reached state is the end of a walk from a source whose cost is
/// the reported one: with `lemma_walks_are_covered`, the reported costs
/// are the cheapest walk costs within the budget.
pub proof fn lemma_reached_by_walk(p: ShortestPaths, grid: &Grid, max_distance: int, s: GridSquare, q: int)
    requires
        p.wf(),
        p.closed_under_steps(grid, max_distance),
        p.reached(s, q),
    ensures
        exists|w: Seq<GridSquare>|
            #![trigger walk_state(w)]
            is_walk(grid, w) && p.source_squares().contains(w[0]) && w.last() == s && walk_state(w)
                == (p.state_dist(s, q), q),
    decreases p.state_dist(s, q),
{
    reveal(ShortestPaths::all_states_ok);
    assert(p.state_ok(s, q));
    match p.state_pred(s, q) {
        None => {
            let w = seq![s];
            assert(walk_state(w) == (p.state_dist(s, q), q));
            assert(is_walk(grid, w));
        },
        Some(y) => {
            let yq = next_parity(y, s, q);
            assert(p.reached(y, yq));
            lemma_reached_by_walk(p, grid, max_distance, y, yq);
            let v = choose|v: Seq<GridSquare>|
                #![trigger walk_state(v)]
                is_walk(grid, v) && p.source_squares().contains(v[0]) && v.last() == y
                    && walk_state(v) == (p.state_dist(y, yq), yq);
            let w = v.push(s);
            assert(w.drop_last() == v);
            assert(w[w.len() - 2] == y);
            assert(grid.is_free(s));
            assert forall|i: int| 0 <= i < w.len() - 1 implies is_adjacent(#[trigger] w[i], w[i + 1])
                && grid.is_free(w[i + 1]) by {
                if i < v.len() - 1 {
                    assert(w[i] == v[i] && w[i + 1] == v[i + 1]);
                }
            }
            assert(w[0] == v[0]);
            assert(walk_state(w) == (p.state_dist(s, q), q));
        },
    }
}

proof fn lemma_state_dominated(
    first: ShortestPaths,
    second: ShortestPaths,
    grid: &Grid,
    max_distance: int,
    s: GridSquare,
    q: int,
)
    requires
        first.wf(),
        second.wf(),
        first.closed_under_steps(grid, max_distance),
        second.closed_under_steps(grid, max_distance),
        first.spec_height() == grid.spec_height(),
        first.spec_width() == grid.spec_width(),
        second.spec_height() == grid.spec_height(),
        second.spec_width() == grid.spec_width(),
        first.source_squares() == second.source_squares(),
        forall|i: int|
            0 <= i < second.source_squares().len() ==> second.reached(#[trigger] second.source_squares()[i], 0)
                && second.state_dist(second.source_squares()[i], 0) == 0,
        first.reached(s, q),
    ensures
        second.reached(s, q),
        second.state_dist(s, q) <= first.state_dist(s, q),
{
    lemma_reached_by_walk(first, grid, max_distance, s, q);
    let w = choose|w: Seq<GridSquare>|
        #![trigger walk_state(w)]
        is_walk(grid, w) && first.source_squares().contains(w[0]) && w.last() == s && walk_state(w)
            == (first.state_dist(s, q), q);
    let k = choose|k: int| 0 <= k < first.source_squares().len() && first.source_squares()[k] == w[0];
    assert(second.reached(second.source_squares()[k], 0));
    if first.state_dist(s, q) <= max_distance {
        lemma_walks_are_covered(second, grid, max_distance, w);
    } else {
        reveal(ShortestPaths::all_states_ok);
        assert(first.state_ok(s, q));
        assert(first.state_pred(s, q) is None);
        let j = choose|j: int| 0 <= j < first.source_squares().len() && first.source_squares()[j] == s;
        assert(second.reached(second.source_squares()[j], 0));
    }
}

/// Two results of the same search agree on every square: the contract of
/// `find_all_shortest_paths` determines its answer.
pub proof fn lemma_search_results_agree(
    first: ShortestPaths,
    second: ShortestPaths,
    grid: &Grid,
    max_distance: int,
)
    requires
        first.wf(),
        second.wf(),
        first.closed_under_steps(grid, max_distance),
        second.closed_under_steps(grid, max_distance),
        first.spec_height() == grid.spec_height(),
        first.spec_width() == grid.spec_width(),
        second.spec_height() == grid.spec_height(),
        second.spec_width() == grid.spec_width(),
        first.source_squares() == second.source_squares(),
        forall|i: int|
            0 <= i < first.source_squares().len() ==> first.reached(#[trigger] first.source_squares()[i], 0)
                && first.state_dist(first.source_squares()[i], 0) == 0,
        forall|i: int|
            0 <= i < second.source_squares().len() ==> second.reached(#[trigger] second.source_squares()[i], 0)
                && second.state_dist(second.source_squares()[i], 0) == 0,
    ensures
        forall|s: GridSquare| #[trigger] first.best_distance(s) == second.best_distance(s),
{
    assert forall|s: GridSquare| #[trigger] first.best_distance(s) == second.best_distance(s) by {
        assert forall|q: int| #[trigger] first.reached(s, q) implies second.reached(s, q) && first.state_dist(s, q) == second.state_dist(s, q) by {
            lemma_state_dominated(first, second, grid, max_distance, s, q);
            lemma_state_dominated(second, first, grid, max_distance, s, q);
        }
        assert forall|q: int| #[trigger] second.reached(s, q) implies first.reached(s, q) by {
            lemma_state_dominated(second, first, grid, max_distance, s, q);
        }
        assert(first.reached(s, 0) == second.reached(s, 0));
        assert(first.reached(s, 1) == second.reached(s, 1));
    }
}

} // verus!
