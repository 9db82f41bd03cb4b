//! The logical grid: a rectangle of cells, each a wall, the tree's root, or a
//! path cell that points toward its parent.
use vstd::prelude::*;

verus! {

/// One of the four neighbours of a cell.
#[derive(Clone, Copy, Debug, PartialEq, Eq, Structural)]
pub enum Direction {
    Up,
    Down,
    Left,
    Right,
}

/// What a logical cell is.
#[derive(Clone, Copy, Debug, PartialEq, Eq, Structural)]
pub enum CellKind {
    Wall,
    /// The root of the spanning tree.
    Floor,
    /// A tree cell whose parent lies one step away in the given direction.
    Path(Direction),
}

/// One logical grid position.
#[derive(Clone, Copy, Debug, PartialEq, Eq, Structural)]
pub struct Cell {
    pub kind: CellKind,
    /// Whether the cell already belongs to the growing tree.
    pub visited: bool,
    /// `Some(d)` exactly when `kind` is `Path(d)`.
    pub direction: Option<Direction>,
}

/// Errors of grid construction and maze generation.
#[derive(Clone, Copy, Debug, PartialEq, Eq, Structural)]
pub enum MazeError {
    /// A side shorter than two cells.
    InvalidDimensions,
    /// A side so long that the expanded grid's side would not fit in `usize`.
    TooLarge,
    /// The random walk used up its whole budget of draws without reaching
    /// the tree.
    WalkTooLong,
}

/// The longest side a logical grid may have: four times it, plus a little,
/// must still fit in a 32-bit `usize`.
pub const MAX_SIDE: usize = 0x3fff_fffe;

pub open spec fn direction_of(k: CellKind) -> Option<Direction> {
    match k {
        CellKind::Path(d) => Some(d),
        _ => None,
    }
}

/// A cell of kind `k`, not yet in the tree.
pub open spec fn blank(k: CellKind) -> Cell {
    Cell { kind: k, visited: false, direction: direction_of(k) }
}

impl Cell {
    pub open spec fn consistent(self) -> bool {
        self.direction == direction_of(self.kind)
    }

    /// A cell of the given kind, not yet in the tree.
    pub fn new(kind: CellKind) -> (r: Cell)
        ensures
            r == blank(kind),
    {
        let direction = match kind {
            CellKind::Path(d) => Some(d),
            _ => None,
        };
        Cell { kind, visited: false, direction }
    }
}

/// The row and column one step from `(row, col)` in direction `d`, as
/// integers (they may leave the grid).
pub open spec fn neighbor(row: int, col: int, d: Direction) -> (int, int) {
    match d {
        Direction::Up => (row - 1, col),
        Direction::Down => (row + 1, col),
        Direction::Left => (row, col - 1),
        Direction::Right => (row, col + 1),
    }
}

/// The cell at `(r, c)` of a grid given row by row.
pub open spec fn cell(v: Seq<Seq<Cell>>, r: int, c: int) -> Cell {
    v[r][c]
}

/// Whether `(r, c)` lies in a grid of `v.len()` rows of `cols` cells.
pub open spec fn in_grid(v: Seq<Seq<Cell>>, cols: nat, r: int, c: int) -> bool {
    0 <= r < v.len() && 0 <= c < cols
}

/// Where the pointer of the cell at `(r, c)` leads: one step in its
/// direction for a path cell, nowhere for any other.
pub open spec fn parent_of(v: Seq<Seq<Cell>>, r: int, c: int) -> (int, int) {
    match cell(v, r, c).kind {
        CellKind::Path(d) => neighbor(r, c, d),
        _ => (r, c),
    }
}

/// The cell reached from `p` by following pointers `k` times.
pub open spec fn follow(v: Seq<Seq<Cell>>, p: (int, int), k: nat) -> (int, int)
    decreases k,
{
    if k == 0 {
        p
    } else {
        follow(v, parent_of(v, p.0, p.1), (k - 1) as nat)
    }
}

/// The grid is a spanning tree rooted at `root`: the root is its only floor
/// cell, every other cell is a path cell pointing to a cell inside the grid,
/// every cell is in the tree, and from every cell the pointers lead to the
/// root.
pub open spec fn spanning_tree(v: Seq<Seq<Cell>>, cols: nat, root: (int, int)) -> bool {
    &&& in_grid(v, cols, root.0, root.1)
    &&& cell(v, root.0, root.1).kind == CellKind::Floor
    &&& forall|r: int, c: int| in_grid(v, cols, r, c) ==> (#[trigger] cell(v, r, c)).visited
    &&& forall|r: int, c: int| in_grid(v, cols, r, c) && (r, c) != root ==> {
        &&& (#[trigger] cell(v, r, c)).kind is Path
        &&& in_grid(v, cols, parent_of(v, r, c).0, parent_of(v, r, c).1)
    }
    &&& forall|r: int, c: int| #[trigger] in_grid(v, cols, r, c) ==> exists|k: nat| follow(v, (r, c), k) == root
}

/// A logical grid of `rows x cols` cells, stored row by row.
pub struct LogicalGrid {
    cells: Vec<Vec<Cell>>,
    cols: usize,
}

impl LogicalGrid {
    /// The cells, row by row.
    pub closed spec fn view(&self) -> Seq<Seq<Cell>> {
        self.cells@.map_values(|row: Vec<Cell>| row@)
    }

    pub closed spec fn num_cols(&self) -> nat {
        self.cols as nat
    }

    pub open spec fn num_rows(&self) -> nat {
        self.view().len()
    }

    pub open spec fn in_bounds(&self, row: int, col: int) -> bool {
        0 <= row < self.num_rows() && 0 <= col < self.num_cols()
    }

    pub open spec fn at(&self, row: int, col: int) -> Cell {
        self.view()[row][col]
    }

    /// Well formed: at least two rows and two columns, every row as long as
    /// the first, no side over `MAX_SIDE`, and every cell's direction
    /// consistent with its kind.
    pub open spec fn wf(&self) -> bool {
        &&& 2 <= self.num_rows() <= MAX_SIDE
        &&& 2 <= self.num_cols() <= MAX_SIDE
        &&& forall|r: int| 0 <= r < self.num_rows() ==> #[trigger] self.view()[r].len() == self.num_cols()
        &&& forall|r: int, c: int| self.in_bounds(r, c) ==> (#[trigger] self.at(r, c)).consistent()
    }

    proof fn lemma_view(&self)
        ensures
            self.view().len() == self.cells@.len(),
            forall|r: int| 0 <= r < self.cells@.len() ==> #[trigger] self.view()[r] == self.cells@[r]@,
    {
    }

    /// A `height x width` grid of walls, none of them in the tree.
    pub fn new(width: usize, height: usize) -> (r: Result<LogicalGrid, MazeError>)
        ensures
            (width < 2 || height < 2) <==> r == Err::<LogicalGrid, MazeError>(MazeError::InvalidDimensions),
            (width >= 2 && height >= 2 && (width > MAX_SIDE || height > MAX_SIDE)) <==> r == Err::<LogicalGrid, MazeError>(MazeError::TooLarge),
            (2 <= width <= MAX_SIDE && 2 <= height <= MAX_SIDE) <==> r is Ok,
            r matches Ok(g) ==> {
                &&& g.wf()
                &&& g.num_rows() == height
                &&& g.num_cols() == width
                &&& forall|i: int, j: int| g.in_bounds(i, j) ==> #[trigger] g.at(i, j) == blank(CellKind::Wall)
            },
    {
        if width < 2 || height < 2 {
            return Err(MazeError::InvalidDimensions);
        }
        if width > MAX_SIDE || height > MAX_SIDE {
            return Err(MazeError::TooLarge);
        }
        let wall = Cell::new(CellKind::Wall);
        let mut cells: Vec<Vec<Cell>> = Vec::new();
        let mut i: usize = 0;
        while i < height
            invariant
                i <= height,
                cells@.len() == i,
                wall == blank(CellKind::Wall),
                forall|r: int| 0 <= r < i ==> #[trigger] cells@[r]@ == Seq::new(width as nat, |j: int| wall),
            decreases height - i,
        {
            let row = vec![wall; width];
            cells.push(row);
            i = i + 1;
        }
        let g = LogicalGrid { cells, cols: width };
        proof {
            g.lemma_view();
            assert forall|r: int, c: int| g.in_bounds(r, c) implies #[trigger] g.at(r, c) == blank(CellKind::Wall) by {
                assert(g.view()[r] == cells@[r]@);
            }
        }
        Ok(g)
    }

    /// The number of rows (the height).
    pub fn rows(&self) -> (r: usize)
        ensures
            r == self.num_rows(),
    {
        self.cells.len()
    }

    /// The number of columns (the width).
    pub fn cols(&self) -> (r: usize)
        ensures
            r == self.num_cols(),
    {
        self.cols
    }

    /// The cell at `(row, col)`.
    pub fn get(&self, row: usize, col: usize) -> (r: Cell)
        requires
            self.wf(),
            self.in_bounds(row as int, col as int),
        ensures
            r == self.at(row as int, col as int),
    {
        proof { self.lemma_view(); }
        self.cells[row][col]
    }

    /// Whether `(row, col)` lies inside the grid.
    pub fn is_within_bounds(&self, row: usize, col: usize) -> (r: bool)
        requires
            self.wf(),
        ensures
            r == self.in_bounds(row as int, col as int),
    {
        row < self.cells.len() && col < self.cols
    }

    /// The cell one step from `(row, col)` in direction `d`, if that stays
    /// inside the grid.
    pub fn next_cell(&self, row: usize, col: usize, d: Direction) -> (r: Option<(usize, usize)>)
        requires
            self.wf(),
            self.in_bounds(row as int, col as int),
        ensures
            self.in_bounds(neighbor(row as int, col as int, d).0, neighbor(row as int, col as int, d).1)
                ==> r == Some((neighbor(row as int, col as int, d).0 as usize, neighbor(row as int, col as int, d).1 as usize)),
            !self.in_bounds(neighbor(row as int, col as int, d).0, neighbor(row as int, col as int, d).1)
                ==> r is None,
    {
        match d {
            Direction::Up => if row > 0 { Some((row - 1, col)) } else { None },
            Direction::Down => if row + 1 < self.cells.len() { Some((row + 1, col)) } else { None },
            Direction::Left => if col > 0 { Some((row, col - 1)) } else { None },
            Direction::Right => if col + 1 < self.cols { Some((row, col + 1)) } else { None },
        }
    }

    /// Whether the cell at `(row, col)` already belongs to the tree (never, for
    /// a position outside the grid).
    pub fn in_ust(&self, row: usize, col: usize) -> (r: bool)
        requires
            self.wf(),
        ensures
            r == (self.in_bounds(row as int, col as int) && self.at(row as int, col as int).visited),
    {
        self.is_within_bounds(row, col) && self.get(row, col).visited
    }

    /// Replaces the cell at `(row, col)`.
    pub fn set(&mut self, row: usize, col: usize, cell: Cell)
        requires
            old(self).wf(),
            old(self).in_bounds(row as int, col as int),
            cell.consistent(),
        ensures
            final(self).wf(),
            final(self).num_cols() == old(self).num_cols(),
            final(self).view() == old(self).view().update(row as int, old(self).view()[row as int].update(col as int, cell)),
    {
        proof {
            self.lemma_view();
            assert(self.view()[row as int].len() == self.num_cols());
        }
        self.cells[row][col] = cell;
        proof {
            self.lemma_view();
            assert forall|r: int| 0 <= r < self.num_rows() implies #[trigger] self.view()[r].len() == self.num_cols() by {
                if r != row {
                    assert(self.view()[r] == old(self).view()[r]);
                }
            }
            assert forall|r: int, c: int| self.in_bounds(r, c) implies (#[trigger] self.at(r, c)).consistent() by {
                if r != row || c != col {
                    assert(self.at(r, c) == old(self).at(r, c));
                }
            }
            assert(self.view() =~= old(self).view().update(row as int, old(self).view()[row as int].update(col as int, cell)));
        }
    }

    /// Makes `(row, col)` a path cell pointing in direction `d`; whether it
    /// is in the tree is kept. Outside the grid, nothing changes.
    pub fn mark_with_direction(&mut self, row: usize, col: usize, d: Direction)
        requires
            old(self).wf(),
        ensures
            !old(self).in_bounds(row as int, col as int) ==> *final(self) == *old(self),
            final(self).wf(),
            final(self).num_cols() == old(self).num_cols(),
            old(self).in_bounds(row as int, col as int) ==> final(self).view() == old(self).view().update(row as int, old(self).view()[row as int].update(col as int,
                Cell { kind: CellKind::Path(d), visited: old(self).at(row as int, col as int).visited, direction: Some(d) })),
    {
        if !self.is_within_bounds(row, col) {
            return;
        }
        let old_cell = self.get(row, col);
        self.set(row, col, Cell { kind: CellKind::Path(d), visited: old_cell.visited, direction: Some(d) });
    }

    /// Makes `(row, col)` a wall; whether it is in the tree is kept. Outside
    /// the grid, nothing changes.
    pub fn mark_wall(&mut self, row: usize, col: usize)
        requires
            old(self).wf(),
        ensures
            !old(self).in_bounds(row as int, col as int) ==> *final(self) == *old(self),
            final(self).wf(),
            final(self).num_cols() == old(self).num_cols(),
            old(self).in_bounds(row as int, col as int) ==> final(self).view() == old(self).view().update(row as int, old(self).view()[row as int].update(col as int,
                Cell { kind: CellKind::Wall, visited: old(self).at(row as int, col as int).visited, direction: None })),
    {
        if !self.is_within_bounds(row, col) {
            return;
        }
        let old_cell = self.get(row, col);
        self.set(row, col, Cell { kind: CellKind::Wall, visited: old_cell.visited, direction: None });
    }

    /// Adds `(row, col)` to the tree, keeping its kind. Outside the grid,
    /// nothing changes.
    pub fn add_to_ust(&mut self, row: usize, col: usize)
        requires
            old(self).wf(),
        ensures
            !old(self).in_bounds(row as int, col as int) ==> *final(self) == *old(self),
            final(self).wf(),
            final(self).num_cols() == old(self).num_cols(),
            old(self).in_bounds(row as int, col as int) ==> final(self).view() == old(self).view().update(row as int, old(self).view()[row as int].update(col as int,
                Cell { visited: true, ..old(self).at(row as int, col as int) })),
    {
        if !self.is_within_bounds(row, col) {
            return;
        }
        let old_cell = self.get(row, col);
        self.set(row, col, Cell { visited: true, ..old_cell });
    }
}

} // verus!
