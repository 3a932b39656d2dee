use vstd::prelude::*;

pub mod gridalgos;

verus! {

/// Largest number of rows or columns a grid may have. It keeps every
/// coordinate difference and every path cost well inside `i32`.
pub const MAX_GRID_SIDE: i32 = 32768;

#[derive(Clone, Copy, Debug, PartialEq, Eq, Structural)]
pub enum Tile {
    Empty,
    Wall,
}

#[derive(Clone, Copy, Debug, PartialEq, Eq, Structural)]
pub struct GridSquare {
    pub y: i32,
    pub x: i32,
}

/// Upper left corner of a grid square.
#[derive(Clone, Copy, Debug, PartialEq, Eq, Structural)]
pub struct GridIntersection {
    pub y: i32,
    pub x: i32,
}

#[derive(Clone, Debug)]
pub struct Grid {
    grid: Vec<Vec<Tile>>,
}

impl Grid {
    /// The tiles, row by row.
    pub closed spec fn tiles(&self) -> Seq<Seq<Tile>> {
        Seq::new(self.grid@.len(), |i: int| self.grid@[i]@)
    }

    pub open spec fn spec_height(&self) -> int {
        self.tiles().len() as int
    }

    pub open spec fn spec_width(&self) -> int {
        self.tiles()[0].len() as int
    }

    /// Every row has the same positive length and both sides are bounded.
    pub open spec fn wf(&self) -> bool {
        &&& 0 < self.spec_height() <= MAX_GRID_SIDE
        &&& 0 < self.spec_width() <= MAX_GRID_SIDE
        &&& forall|i: int|
            0 <= i < self.spec_height() ==> #[trigger] self.tiles()[i].len() == self.spec_width()
    }

    pub open spec fn in_bounds(&self, square: GridSquare) -> bool {
        0 <= square.y < self.spec_height() && 0 <= square.x < self.spec_width()
    }

    pub open spec fn tile_at(&self, square: GridSquare) -> Tile {
        self.tiles()[square.y as int][square.x as int]
    }

    pub open spec fn is_free(&self, square: GridSquare) -> bool {
        self.in_bounds(square) && self.tile_at(square) == Tile::Empty
    }

    /// An empty grid of the given size.
    pub fn new(height: i32, width: i32) -> (r: Self)
        requires
            0 < height <= MAX_GRID_SIDE,
            0 < width <= MAX_GRID_SIDE,
        ensures
            r.wf(),
            r.spec_height() == height,
            r.spec_width() == width,
            forall|s: GridSquare| r.in_bounds(s) ==> r.tile_at(s) == Tile::Empty,
    {
        let mut grid: Vec<Vec<Tile>> = Vec::new();
        let mut i: i32 = 0;
        while i < height
            invariant
                0 <= i <= height,
                0 < width <= MAX_GRID_SIDE,
                grid@.len() == i,
                forall|k: int| 0 <= k < i ==> #[trigger] grid@[k]@.len() == width,
                forall|k: int, j: int|
                    0 <= k < i && 0 <= j < width ==> #[trigger] grid@[k]@[j] == Tile::Empty,
            decreases height - i,
        {
            let mut row: Vec<Tile> = Vec::new();
            let mut j: i32 = 0;
            while j < width
                invariant
                    0 <= j <= width,
                    0 < width,
                    row@.len() == j,
                    forall|k: int| 0 <= k < j ==> #[trigger] row@[k] == Tile::Empty,
                decreases width - j,
            {
                row.push(Tile::Empty);
                j = j + 1;
            }
            grid.push(row);
            i = i + 1;
        }
        let r = Self { grid };
        assert(r.tiles().len() == height);
        r
    }

    /// A copy of the grid, tile for tile.
    pub fn copy(&self) -> (r: Self)
        ensures
            r.tiles() == self.tiles(),
    {
        let mut grid: Vec<Vec<Tile>> = Vec::new();
        let mut i: usize = 0;
        while i < self.grid.len()
            invariant
                0 <= i <= self.grid@.len(),
                grid@.len() == i,
                forall|k: int| 0 <= k < i ==> #[trigger] grid@[k]@ == self.grid@[k]@,
            decreases self.grid@.len() - i,
        {
            let src = &self.grid[i];
            let mut row: Vec<Tile> = Vec::new();
            let mut j: usize = 0;
            while j < src.len()
                invariant
                    0 <= j <= src@.len(),
                    row@ == src@.subrange(0, j as int),
                decreases src@.len() - j,
            {
                row.push(src[j]);
                j = j + 1;
            }
            assert(row@ == src@.subrange(0, j as int));
            assert(src@.subrange(0, j as int) == src@);
            grid.push(row);
            i = i + 1;
        }
        let r = Self { grid };
        assert(r.tiles() =~= self.tiles());
        r
    }

    pub fn height(&self) -> (r: i32)
        requires
            self.wf(),
        ensures
            r == self.spec_height(),
    {
        self.grid.len() as i32
    }

    pub fn width(&self) -> (r: i32)
        requires
            self.wf(),
        ensures
            r == self.spec_width(),
    {
        self.grid[0].len() as i32
    }

    pub fn valid_square(&self, square: &GridSquare) -> (r: bool)
        requires
            self.wf(),
        ensures
            r == self.in_bounds(*square),
    {
        square.y >= 0 && square.y < self.height() && square.x >= 0 && square.x < self.width()
    }

    /// Inside the grid and not a wall.
    pub fn free_square(&self, square: &GridSquare) -> (r: bool)
        requires
            self.wf(),
        ensures
            r == self.is_free(*square),
    {
        match self.get_tile(square) {
            Some(tile) => *tile == Tile::Empty,
            None => false,
        }
    }

    pub fn get_tile(&self, square: &GridSquare) -> (r: Option<&Tile>)
        requires
            self.wf(),
        ensures
            r.is_some() == self.in_bounds(*square),
            r.is_some() ==> *r.unwrap() == self.tile_at(*square),
    {
        if !self.valid_square(square) {
            return None;
        }
        let row = &self.grid[square.y as usize];
        assert(row@ == self.tiles()[square.y as int]);
        Some(&row[square.x as usize])
    }

    /// Changes one tile; the square must be inside the grid.
    pub fn set_tile(&mut self, square: GridSquare, tile: Tile)
        requires
            old(self).wf(),
            old(self).in_bounds(square),
        ensures
            final(self).wf(),
            final(self).spec_height() == old(self).spec_height(),
            final(self).spec_width() == old(self).spec_width(),
            final(self).tile_at(square) == tile,
            forall|s: GridSquare|
                final(self).in_bounds(s) && s != square ==> final(self).tile_at(s) == old(self).tile_at(s),
    {
        let y = square.y as usize;
        let x = square.x as usize;
        let ghost old_tiles = self.tiles();
        assert(self.grid@[y as int]@ == old_tiles[y as int]);
        self.grid[y].set(x, tile);
        assert(self.tiles() =~= old_tiles.update(y as int, old_tiles[y as int].update(x as int, tile)));
    }
}

} // verus!
