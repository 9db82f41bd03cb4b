//! Maze generation: a walk from a random cell outside the tree, wandering
//! until it meets the tree, after which every cell it touched joins the tree.
//!
//! The builder is a state machine fed one random draw at a time, so the maze
//! is a function of the dimensions and the sequence of draws; `generate`
//! drives it from a random number generator.
use vstd::prelude::*;
use crate::grid::{
    blank, cell, in_grid, neighbor, spanning_tree, Cell, CellKind, Direction, LogicalGrid,
    MazeError, MAX_SIDE,
};
use crate::rng::draw_in;
use rand::rngs::StdRng;

verus! {

/// What the builder does with the next draw.
#[derive(Clone, Copy, Debug, PartialEq, Eq, Structural)]
pub enum Phase {
    /// Choose the root's row.
    RootRow,
    /// Choose the root's column; its row is given.
    RootCol(usize),
    /// Choose the cell outside the tree where the next walk starts.
    PickStart,
    /// Choose a direction for the walk, which stands at the given cell.
    Walk(usize, usize),
    /// Every cell is in the tree.
    Done,
}

/// The builder's state as a mathematical value.
pub struct BuildState {
    pub grid: Seq<Seq<Cell>>,
    pub cols: nat,
    pub phase: Phase,
    pub root: (usize, usize),
    /// The cells the current walk has stood on, in order, repeats included.
    pub excursion: Seq<(usize, usize)>,
}

/// The direction that a draw below four stands for.
pub open spec fn direction_of_roll(roll: nat) -> Direction {
    if roll == 0 {
        Direction::Up
    } else if roll == 1 {
        Direction::Down
    } else if roll == 2 {
        Direction::Left
    } else {
        Direction::Right
    }
}

/// The cells outside the tree that come before `(r, c)` in row-major order
/// (`c` may equal `cols`, meaning the whole of row `r`).
pub open spec fn unvisited_before(v: Seq<Seq<Cell>>, cols: nat, r: nat, c: nat) -> Seq<(usize, usize)>
    decreases r, c,
{
    if c == 0 {
        if r == 0 {
            Seq::empty()
        } else {
            unvisited_before(v, cols, (r - 1) as nat, cols)
        }
    } else {
        let p = unvisited_before(v, cols, r, (c - 1) as nat);
        if !cell(v, r as int, c - 1).visited {
            p.push((r as usize, (c - 1) as usize))
        } else {
            p
        }
    }
}

/// All cells outside the tree, in row-major order.
pub open spec fn unvisited(v: Seq<Seq<Cell>>, cols: nat) -> Seq<(usize, usize)> {
    unvisited_before(v, cols, v.len(), 0)
}

/// `v` with the cell at `p` put into the tree.
pub open spec fn set_visited(v: Seq<Seq<Cell>>, p: (usize, usize)) -> Seq<Seq<Cell>> {
    v.update(p.0 as int, v[p.0 as int].update(p.1 as int, Cell { visited: true, ..v[p.0 as int][p.1 as int] }))
}

/// `v` with every cell of `ex` put into the tree.
pub open spec fn mark_all(v: Seq<Seq<Cell>>, ex: Seq<(usize, usize)>) -> Seq<Seq<Cell>>
    decreases ex.len(),
{
    if ex.len() == 0 {
        v
    } else {
        set_visited(mark_all(v, ex.drop_last()), ex.last())
    }
}

/// `v` with the cell at `(r, c)` replaced.
pub open spec fn set_cell(v: Seq<Seq<Cell>>, r: int, c: int, x: Cell) -> Seq<Seq<Cell>> {
    v.update(r, v[r].update(c, x))
}

/// The phase after a walk has joined the tree.
pub open spec fn settle(v: Seq<Seq<Cell>>, cols: nat) -> Phase {
    if unvisited(v, cols).len() == 0 {
        Phase::Done
    } else {
        Phase::PickStart
    }
}

/// How many values the next draw may take (it is below this); zero once done.
pub open spec fn draw_bound(s: BuildState) -> nat {
    match s.phase {
        Phase::RootRow => s.grid.len(),
        Phase::RootCol(_) => s.cols,
        Phase::PickStart => unvisited(s.grid, s.cols).len(),
        Phase::Walk(_, _) => 4,
        Phase::Done => 0,
    }
}

/// The state after the draw `roll`.
///
/// The root is drawn as a row, then a column, and becomes the tree's floor
/// cell. Each walk starts at the `roll`-th cell outside the tree. A walk
/// draws a direction; a step that would leave the grid is drawn again. A
/// step that stays inside turns the current cell into a path cell pointing
/// that way; if it reaches the tree, every cell of the walk joins the tree,
/// and otherwise the walk moves on.
pub open spec fn next(s: BuildState, roll: nat) -> BuildState {
    match s.phase {
        Phase::RootRow => BuildState { phase: Phase::RootCol(roll as usize), ..s },
        Phase::RootCol(r) => {
            let v = set_cell(s.grid, r as int, roll as int, Cell { kind: CellKind::Floor, visited: true, direction: None });
            BuildState { grid: v, phase: settle(v, s.cols), root: (r, roll as usize), ..s }
        },
        Phase::PickStart => {
            let p = unvisited(s.grid, s.cols)[roll as int];
            BuildState { phase: Phase::Walk(p.0, p.1), excursion: seq![p], ..s }
        },
        Phase::Walk(r, c) => {
            let d = direction_of_roll(roll);
            let n = neighbor(r as int, c as int, d);
            if !in_grid(s.grid, s.cols, n.0, n.1) {
                s
            } else {
                let v = set_cell(s.grid, r as int, c as int,
                    Cell { kind: CellKind::Path(d), visited: cell(s.grid, r as int, c as int).visited, direction: Some(d) });
                if cell(v, n.0, n.1).visited {
                    let w = mark_all(v, s.excursion);
                    BuildState { grid: w, phase: settle(w, s.cols), excursion: Seq::empty(), ..s }
                } else {
                    BuildState {
                        grid: v,
                        phase: Phase::Walk(n.0 as usize, n.1 as usize),
                        excursion: s.excursion.push((n.0 as usize, n.1 as usize)),
                        ..s
                    }
                }
            }
        },
        Phase::Done => s,
    }
}

/// The state after the draws `rolls`, in order.
pub open spec fn run(s: BuildState, rolls: Seq<nat>) -> BuildState
    decreases rolls.len(),
{
    if rolls.len() == 0 {
        s
    } else {
        next(run(s, rolls.drop_last()), rolls.last())
    }
}

/// Each of `rolls`, fed in order from `s`, is below the bound of the state
/// it is fed to.
pub open spec fn valid_draws(s: BuildState, rolls: Seq<nat>) -> bool
    decreases rolls.len(),
{
    rolls.len() == 0 || (valid_draws(s, rolls.drop_last()) && rolls.last() < draw_bound(run(s, rolls.drop_last())))
}

/// The valid draws `rolls` take a fresh `height x width` builder to a
/// finished maze whose grid is `v`.
pub open spec fn built_from(width: nat, height: nat, rolls: Seq<nat>, v: Seq<Seq<Cell>>) -> bool {
    &&& valid_draws(start(width, height), rolls)
    &&& run(start(width, height), rolls).phase == Phase::Done
    &&& run(start(width, height), rolls).grid == v
}

/// `MAX_DRAWS` valid draws leave a fresh `height x width` builder unfinished.
pub open spec fn stalled(width: nat, height: nat, rolls: Seq<nat>) -> bool {
    &&& rolls.len() == MAX_DRAWS
    &&& valid_draws(start(width, height), rolls)
    &&& run(start(width, height), rolls).phase != Phase::Done
}

/// The state before any draw: a `height x width` grid of walls.
pub open spec fn start(width: nat, height: nat) -> BuildState {
    BuildState {
        grid: Seq::new(height, |r: int| Seq::new(width, |c: int| blank(CellKind::Wall))),
        cols: width,
        phase: Phase::RootRow,
        root: (0, 0),
        excursion: Seq::empty(),
    }
}

spec fn in_tree(v: Seq<Seq<Cell>>, r: int, c: int) -> bool {
    cell(v, r, c).visited
}

/// Every cell of `v` in the tree has its pointer checked: the root is the
/// floor cell, and any other points inside the grid to a tree cell of lower
/// rank.
spec fn tree_ok(v: Seq<Seq<Cell>>, cols: nat, root: (usize, usize), rank: spec_fn((usize, usize)) -> nat) -> bool {
    forall|r: int, c: int| in_grid(v, cols, r, c) && #[trigger] in_tree(v, r, c) ==> {
        if r == root.0 && c == root.1 {
            cell(v, r, c).kind == CellKind::Floor
        } else {
            let p = crate::grid::parent_of(v, r, c);
            &&& cell(v, r, c).kind is Path
            &&& in_grid(v, cols, p.0, p.1)
            &&& cell(v, p.0, p.1).visited
            &&& rank((p.0 as usize, p.1 as usize)) < rank((r as usize, c as usize))
        }
    }
}

/// The walk under way: it stands at `cur`, the last cell of `ex`; its cells
/// are inside the grid and outside the tree; and each of them but `cur`
/// points to a cell of the walk that was left later (higher stamp).
spec fn walk_ok(v: Seq<Seq<Cell>>, cols: nat, ex: Seq<(usize, usize)>, cur: (usize, usize), stamp: spec_fn((usize, usize)) -> nat) -> bool {
    &&& ex.len() > 0
    &&& ex.last() == cur
    &&& forall|i: int| 0 <= i < ex.len() ==> {
        &&& in_grid(v, cols, (#[trigger] ex[i]).0 as int, ex[i].1 as int)
        &&& !cell(v, ex[i].0 as int, ex[i].1 as int).visited
        &&& stamp(ex[i]) <= stamp(cur)
    }
    &&& forall|i: int| 0 <= i < ex.len() && (#[trigger] ex[i]) != cur ==> {
        let p = crate::grid::parent_of(v, ex[i].0 as int, ex[i].1 as int);
        &&& cell(v, ex[i].0 as int, ex[i].1 as int).kind is Path
        &&& in_grid(v, cols, p.0, p.1)
        &&& ex.contains((p.0 as usize, p.1 as usize))
        &&& stamp(ex[i]) < stamp((p.0 as usize, p.1 as usize))
    }
}

proof fn lemma_unvisited_before(v: Seq<Seq<Cell>>, cols: nat, r: nat, c: nat)
    requires
        c <= cols <= usize::MAX,
        v.len() <= usize::MAX,
        r < v.len() || (r == v.len() && c == 0),
    ensures
        forall|i: int| 0 <= i < unvisited_before(v, cols, r, c).len() ==> {
            let p = #[trigger] unvisited_before(v, cols, r, c)[i];
            &&& in_grid(v, cols, p.0 as int, p.1 as int)
            &&& !cell(v, p.0 as int, p.1 as int).visited
        },
        forall|a: int, b: int| #![trigger cell(v, a, b)]
            in_grid(v, cols, a, b) && (a < r || (a == r && b < c)) && !cell(v, a, b).visited
                ==> unvisited_before(v, cols, r, c).contains((a as usize, b as usize)),
    decreases r, c,
{
    let l = unvisited_before(v, cols, r, c);
    if c == 0 {
        if r > 0 {
            lemma_unvisited_before(v, cols, (r - 1) as nat, cols);
        }
    } else {
        let p = unvisited_before(v, cols, r, (c - 1) as nat);
        lemma_unvisited_before(v, cols, r, (c - 1) as nat);
        assert forall|i: int| 0 <= i < l.len() implies {
            let q = #[trigger] l[i];
            &&& in_grid(v, cols, q.0 as int, q.1 as int)
            &&& !cell(v, q.0 as int, q.1 as int).visited
        } by {
            if i < p.len() {
                assert(l[i] == p[i]);
            }
        }
        assert forall|a: int, b: int| #![trigger cell(v, a, b)]
            in_grid(v, cols, a, b) && (a < r || (a == r && b < c)) && !cell(v, a, b).visited
                implies l.contains((a as usize, b as usize)) by {
            if a == r && b == c - 1 {
                assert(l[l.len() - 1] == (a as usize, b as usize));
            } else {
                let j = choose|j: int| 0 <= j < p.len() && p[j] == (a as usize, b as usize);
                assert(l[j] == p[j]);
            }
        }
    }
}

/// No cell outside the tree is left exactly when the list of them is empty.
proof fn lemma_unvisited(v: Seq<Seq<Cell>>, cols: nat)
    requires
        cols <= usize::MAX,
        v.len() <= usize::MAX,
    ensures
        forall|i: int| 0 <= i < unvisited(v, cols).len() ==> {
            let p = #[trigger] unvisited(v, cols)[i];
            &&& in_grid(v, cols, p.0 as int, p.1 as int)
            &&& !cell(v, p.0 as int, p.1 as int).visited
        },
        unvisited(v, cols).len() == 0 ==> forall|a: int, b: int| in_grid(v, cols, a, b) ==> (#[trigger] cell(v, a, b)).visited,
{
    lemma_unvisited_before(v, cols, v.len(), 0);
    if unvisited(v, cols).len() == 0 {
        assert forall|a: int, b: int| in_grid(v, cols, a, b) implies (#[trigger] cell(v, a, b)).visited by {
            if !cell(v, a, b).visited {
                assert(unvisited(v, cols).contains((a as usize, b as usize)));
            }
        }
    }
}

/// `mark_all` keeps the shape and every field but `visited`, which becomes
/// true exactly on the cells of `ex`.
proof fn lemma_mark_all(v: Seq<Seq<Cell>>, cols: nat, ex: Seq<(usize, usize)>)
    requires
        cols <= usize::MAX,
        v.len() <= usize::MAX,
        forall|r: int| 0 <= r < v.len() ==> #[trigger] v[r].len() == cols,
        forall|i: int| 0 <= i < ex.len() ==> in_grid(v, cols, (#[trigger] ex[i]).0 as int, ex[i].1 as int),
    ensures
        mark_all(v, ex).len() == v.len(),
        forall|r: int| 0 <= r < v.len() ==> #[trigger] mark_all(v, ex)[r].len() == cols,
        forall|r: int, c: int| #[trigger] in_grid(v, cols, r, c) ==> cell(mark_all(v, ex), r, c)
            == (Cell { visited: cell(v, r, c).visited || ex.contains((r as usize, c as usize)), ..cell(v, r, c) }),
    decreases ex.len(),
{
    if ex.len() > 0 {
        let ex0 = ex.drop_last();
        assert forall|i: int| 0 <= i < ex0.len() implies in_grid(v, cols, (#[trigger] ex0[i]).0 as int, ex0[i].1 as int) by {
            assert(ex0[i] == ex[i]);
        }
        lemma_mark_all(v, cols, ex0);
        let m = mark_all(v, ex0);
        let x = ex.last();
        assert(in_grid(v, cols, ex[ex.len() - 1].0 as int, ex[ex.len() - 1].1 as int));
        assert forall|r: int, c: int| #[trigger] in_grid(v, cols, r, c) implies cell(mark_all(v, ex), r, c)
            == (Cell { visited: cell(v, r, c).visited || ex.contains((r as usize, c as usize)), ..cell(v, r, c) }) by {
            let q = (r as usize, c as usize);
            if ex.contains(q) && q != x {
                let j = choose|j: int| 0 <= j < ex.len() && ex[j] == q;
                assert(ex0[j] == q);
            }
            if ex0.contains(q) {
                let j = choose|j: int| 0 <= j < ex0.len() && ex0[j] == q;
                assert(ex[j] == q);
            }
            if q == x {
                assert(ex[ex.len() - 1] == q);
            }
        }
    }
}

/// From a tree cell, following pointers leads to the root within `k` steps.
proof fn lemma_reaches_root(v: Seq<Seq<Cell>>, cols: nat, root: (usize, usize), rank: spec_fn((usize, usize)) -> nat, r: int, c: int) -> (k: nat)
    requires
        cols <= usize::MAX,
        v.len() <= usize::MAX,
        tree_ok(v, cols, root, rank),
        in_grid(v, cols, r, c),
        cell(v, r, c).visited,
    ensures
        crate::grid::follow(v, (r, c), k) == (root.0 as int, root.1 as int),
    decreases rank((r as usize, c as usize)),
{
    if r == root.0 && c == root.1 {
        0
    } else {
        let p = crate::grid::parent_of(v, r, c);
        assert(in_tree(v, r, c));
        assert(in_grid(v, cols, p.0, p.1) && in_tree(v, p.0, p.1));
        let k = lemma_reaches_root(v, cols, root, rank, p.0, p.1);
        assert(crate::grid::follow(v, (r, c), k + 1) == crate::grid::follow(v, p, k));
        k + 1
    }
}

/// Builds a maze on a logical grid, one random draw at a time.
pub struct MazeBuilder {
    grid: LogicalGrid,
    phase: Phase,
    root: (usize, usize),
    excursion: Vec<(usize, usize)>,
    /// For each tree cell, an upper bound on its distance to the root.
    rank: Ghost<spec_fn((usize, usize)) -> nat>,
    /// For each cell of the walk, when the walk last left it.
    stamp: Ghost<spec_fn((usize, usize)) -> nat>,
}

/// The cells of `g` outside the tree, in row-major order.
pub fn unvisited_cells(g: &LogicalGrid) -> (r: Vec<(usize, usize)>)
    requires
        g.wf(),
    ensures
        r@ == unvisited(g.view(), g.num_cols()),
{
    let rows = g.rows();
    let cols = g.cols();
    let mut out: Vec<(usize, usize)> = Vec::new();
    let mut r: usize = 0;
    while r < rows
        invariant
            g.wf(),
            rows == g.num_rows(),
            cols == g.num_cols(),
            r <= rows,
            out@ == unvisited_before(g.view(), g.num_cols(), r as nat, 0),
        decreases rows - r,
    {
        let mut c: usize = 0;
        while c < cols
            invariant
                g.wf(),
                rows == g.num_rows(),
                cols == g.num_cols(),
                r < rows,
                c <= cols,
                out@ == unvisited_before(g.view(), g.num_cols(), r as nat, c as nat),
            decreases cols - c,
        {
            if !g.get(r, c).visited {
                out.push((r, c));
            }
            c = c + 1;
        }
        r = r + 1;
    }
    out
}

/// Puts every cell of `ex` into the tree.
fn join_walk(g: &mut LogicalGrid, ex: &Vec<(usize, usize)>)
    requires
        old(g).wf(),
        forall|i: int| 0 <= i < ex@.len() ==> old(g).in_bounds((#[trigger] ex@[i]).0 as int, ex@[i].1 as int),
    ensures
        final(g).wf(),
        final(g).num_cols() == old(g).num_cols(),
        final(g).view() == mark_all(old(g).view(), ex@),
{
    let mut i: usize = 0;
    while i < ex.len()
        invariant
            g.wf(),
            g.num_cols() == old(g).num_cols(),
            g.view().len() == old(g).view().len(),
            i <= ex@.len(),
            forall|k: int| 0 <= k < ex@.len() ==> old(g).in_bounds((#[trigger] ex@[k]).0 as int, ex@[k].1 as int),
            g.view() == mark_all(old(g).view(), ex@.take(i as int)),
        decreases ex@.len() - i,
    {
        let (r, c) = ex[i];
        g.add_to_ust(r, c);
        proof {
            assert(ex@.take(i as int + 1).drop_last() =~= ex@.take(i as int));
            assert(ex@.take(i as int + 1).last() == ex@[i as int]);
        }
        i = i + 1;
    }
    proof {
        assert(ex@.take(i as int) =~= ex@);
    }
}

/// Whether a walk should follow, or every cell is in the tree.
fn settle_phase(g: &LogicalGrid) -> (r: Phase)
    requires
        g.wf(),
    ensures
        r == settle(g.view(), g.num_cols()),
{
    if unvisited_cells(g).len() == 0 {
        Phase::Done
    } else {
        Phase::PickStart
    }
}

/// The direction that a draw below four stands for.
pub fn direction_from_roll(roll: usize) -> (d: Direction)
    ensures
        d == direction_of_roll(roll as nat),
{
    match roll {
        0 => Direction::Up,
        1 => Direction::Down,
        2 => Direction::Left,
        _ => Direction::Right,
    }
}

impl MazeBuilder {
    pub closed spec fn view(&self) -> BuildState {
        BuildState {
            grid: self.grid.view(),
            cols: self.grid.num_cols(),
            phase: self.phase,
            root: self.root,
            excursion: self.excursion@,
        }
    }

    /// The builder's invariant: its grid is well formed, the tree cells form
    /// a tree toward the root, and the walk under way is consistent.
    pub closed spec fn wf(&self) -> bool {
        let v = self.grid.view();
        let cols = self.grid.num_cols();
        &&& self.grid.wf()
        &&& match self.phase {
            Phase::RootRow | Phase::RootCol(_) => {
                &&& forall|r: int, c: int| in_grid(v, cols, r, c) ==> !#[trigger] cell(v, r, c).visited
                &&& (self.phase matches Phase::RootCol(r) ==> r < v.len())
            },
            _ => {
                &&& in_grid(v, cols, self.root.0 as int, self.root.1 as int)
                &&& cell(v, self.root.0 as int, self.root.1 as int).visited
                &&& tree_ok(v, cols, self.root, self.rank@)
                &&& (self.phase matches Phase::Walk(r, c) ==> walk_ok(v, cols, self.excursion@, (r, c), self.stamp@))
                &&& (self.phase == Phase::PickStart ==> unvisited(v, cols).len() > 0)
                &&& (self.phase == Phase::Done ==> unvisited(v, cols).len() == 0)
            },
        }
    }

    /// A builder for a `height x width` maze that has drawn nothing yet.
    pub fn new(width: usize, height: usize) -> (r: Result<MazeBuilder, MazeError>)
        ensures
            (width < 2 || height < 2) <==> r == Err::<MazeBuilder, MazeError>(MazeError::InvalidDimensions),
            (width >= 2 && height >= 2 && (width > MAX_SIDE || height > MAX_SIDE)) <==> r == Err::<MazeBuilder, MazeError>(MazeError::TooLarge),
            (2 <= width <= MAX_SIDE && 2 <= height <= MAX_SIDE) <==> r is Ok,
            r matches Ok(b) ==> b.wf() && b@ == start(width as nat, height as nat),
    {
        match LogicalGrid::new(width, height) {
            Err(e) => Err(e),
            Ok(grid) => {
                let b = MazeBuilder {
                    grid,
                    phase: Phase::RootRow,
                    root: (0, 0),
                    excursion: Vec::new(),
                    rank: Ghost(|p: (usize, usize)| 0nat),
                    stamp: Ghost(|p: (usize, usize)| 0nat),
                };
                proof {
                    let st = start(width as nat, height as nat);
                    assert forall|r: int| 0 <= r < height implies #[trigger] b.grid.view()[r] =~= st.grid[r] by {
                        assert forall|c: int| 0 <= c < width implies b.grid.view()[r][c] == st.grid[r][c] by {
                            assert(b.grid.in_bounds(r, c));
                            assert(b.grid.at(r, c) == blank(CellKind::Wall));
                        }
                    }
                    assert(b.grid.view() =~= st.grid);
                    assert(b@.excursion =~= st.excursion);
                    assert forall|r: int, c: int| in_grid(b.grid.view(), b.grid.num_cols(), r, c)
                        implies !#[trigger] cell(b.grid.view(), r, c).visited by {
                        assert(b.grid.in_bounds(r, c));
                        assert(b.grid.at(r, c) == blank(CellKind::Wall));
                    }
                }
                Ok(b)
            },
        }
    }

    /// The next draw must be below this; zero once the maze is done.
    pub fn pending_bound(&self) -> (r: usize)
        requires
            self.wf(),
        ensures
            r == draw_bound(self@),
            self@.phase != Phase::Done ==> r > 0,
    {
        match self.phase {
            Phase::RootRow => self.grid.rows(),
            Phase::RootCol(_) => self.grid.cols(),
            Phase::PickStart => unvisited_cells(&self.grid).len(),
            Phase::Walk(_, _) => 4,
            Phase::Done => 0,
        }
    }

    /// Whether every cell is in the tree.
    pub fn is_done(&self) -> (r: bool)
        ensures
            r == (self@.phase == Phase::Done),
    {
        self.phase == Phase::Done
    }

    /// The grid as built so far.
    pub fn grid(&self) -> (r: &LogicalGrid)
        ensures
            r.view() == self@.grid,
            r.num_cols() == self@.cols,
    {
        &self.grid
    }

    /// The tree's root (meaningful once it has been drawn).
    pub fn root(&self) -> (r: (usize, usize))
        ensures
            r == self@.root,
    {
        self.root
    }

    /// Takes the draw `roll` (see `next`).
    pub fn feed(&mut self, roll: usize)
        requires
            old(self).wf(),
            (roll as nat) < draw_bound(old(self)@),
        ensures
            final(self).wf(),
            final(self)@ == next(old(self)@, roll as nat),
            final(self)@.grid.len() == old(self)@.grid.len(),
            final(self)@.cols == old(self)@.cols,
    {
        match self.phase {
            Phase::RootRow => {
                self.phase = Phase::RootCol(roll);
            },
            Phase::RootCol(row) => self.place_root(row, roll),
            Phase::PickStart => self.start_walk(roll),
            Phase::Walk(r, c) => self.walk_step(r, c, roll),
            Phase::Done => {},
        }
    }

    fn place_root(&mut self, row: usize, col: usize)
        requires
            old(self).wf(),
            old(self).phase == Phase::RootCol(row),
            col < old(self).grid.num_cols(),
        ensures
            final(self).wf(),
            final(self)@ == next(old(self)@, col as nat),
            final(self)@.grid.len() == old(self)@.grid.len(),
    {
        let ghost v0 = self.grid.view();
        self.grid.set(row, col, Cell { kind: CellKind::Floor, visited: true, direction: None });
        self.root = (row, col);
        self.phase = settle_phase(&self.grid);
        proof {
            let v = self.grid.view();
            let cols = self.grid.num_cols();
            assert forall|r: int, c: int| in_grid(v, cols, r, c) && #[trigger] in_tree(v, r, c) implies r == row && c == col by {
                if r != row || c != col {
                    assert(cell(v, r, c) == cell(v0, r, c));
                }
            }
            lemma_unvisited(v, cols);
        }
    }

    fn start_walk(&mut self, roll: usize)
        requires
            old(self).wf(),
            old(self).phase == Phase::PickStart,
            (roll as nat) < unvisited(old(self)@.grid, old(self)@.cols).len(),
        ensures
            final(self).wf(),
            final(self)@ == next(old(self)@, roll as nat),
            final(self)@.grid.len() == old(self)@.grid.len(),
    {
        let list = unvisited_cells(&self.grid);
        let p = list[roll];
        proof {
            lemma_unvisited(self.grid.view(), self.grid.num_cols());
            assert(list@[roll as int] == p);
        }
        self.phase = Phase::Walk(p.0, p.1);
        self.excursion = vec![p];
        self.stamp = Ghost(|q: (usize, usize)| 0nat);
        proof {
            assert(self.excursion@ =~= seq![p]);
            assert(self.excursion@[0] == p);
        }
    }

    fn walk_step(&mut self, r: usize, c: usize, roll: usize)
        requires
            old(self).wf(),
            old(self).phase == Phase::Walk(r, c),
            roll < 4,
        ensures
            final(self).wf(),
            final(self)@ == next(old(self)@, roll as nat),
            final(self)@.grid.len() == old(self)@.grid.len(),
    {
        let ghost v = self.grid.view();
        let ghost cols = self.grid.num_cols();
        let ghost ex = self.excursion@;
        let ghost cur = (r, c);
        let ghost stamp = self.stamp@;
        let ghost rank = self.rank@;
        proof {
            assert(ex[ex.len() - 1] == cur);
        }
        let d = direction_from_roll(roll);
        match self.grid.next_cell(r, c, d) {
            None => {},
            Some((nr, nc)) => {
                self.grid.mark_with_direction(r, c, d);
                let ghost v1 = self.grid.view();
                proof {
                    assert forall|a: int, b: int| in_grid(v, cols, a, b) && !(a == r && b == c)
                        implies #[trigger] cell(v1, a, b) == cell(v, a, b) by {}
                    assert(cell(v1, r as int, c as int).visited == cell(v, r as int, c as int).visited);
                    assert(!cell(v, r as int, c as int).visited);
                    assert(cell(v1, self.root.0 as int, self.root.1 as int) == cell(v, self.root.0 as int, self.root.1 as int));
                    assert(in_grid(v1, cols, self.root.0 as int, self.root.1 as int));
                }
                if self.grid.in_ust(nr, nc) {
                    proof {
                        assert forall|i: int| 0 <= i < ex.len() implies
                            self.grid.in_bounds((#[trigger] ex[i]).0 as int, ex[i].1 as int) by {}
                        lemma_mark_all(v1, cols, ex);
                    }
                    join_walk(&mut self.grid, &self.excursion);
                    self.excursion = Vec::new();
                    self.phase = settle_phase(&self.grid);
                    let ghost new_rank = |q: (usize, usize)|
                        if ex.contains(q) {
                            rank((nr, nc)) + 1 + (stamp(cur) - stamp(q)) as nat
                        } else {
                            rank(q)
                        };
                    self.rank = Ghost(new_rank);
                    proof {
                        let w = self.grid.view();
                        assert(self.excursion@ =~= Seq::<(usize, usize)>::empty());
                        lemma_unvisited(w, cols);
                        assert(!ex.contains((nr, nc))) by {
                            if ex.contains((nr, nc)) {
                                let j = choose|j: int| 0 <= j < ex.len() && ex[j] == (nr, nc);
                                assert(ex[j] == (nr, nc));
                            }
                        }
                        assert(!ex.contains(self.root)) by {
                            if ex.contains(self.root) {
                                let j = choose|j: int| 0 <= j < ex.len() && ex[j] == self.root;
                                assert(ex[j] == self.root);
                            }
                        }
                        assert(in_grid(v, cols, self.root.0 as int, self.root.1 as int));
                        assert forall|a: int, b: int| in_grid(w, cols, a, b) && #[trigger] in_tree(w, a, b) implies {
                            if a == self.root.0 && b == self.root.1 {
                                cell(w, a, b).kind == CellKind::Floor
                            } else {
                                let p = crate::grid::parent_of(w, a, b);
                                &&& cell(w, a, b).kind is Path
                                &&& in_grid(w, cols, p.0, p.1)
                                &&& cell(w, p.0, p.1).visited
                                &&& new_rank((p.0 as usize, p.1 as usize)) < new_rank((a as usize, b as usize))
                            }
                        } by {
                            let q = (a as usize, b as usize);
                            assert(in_grid(v, cols, a, b));
                            assert(in_grid(v1, cols, a, b));
                            assert(ex.contains(cur)) by {
                                assert(ex[ex.len() - 1] == cur);
                            }
                            if ex.contains(q) {
                                let j = choose|j: int| 0 <= j < ex.len() && ex[j] == q;
                                assert(ex[j] == q);
                                assert(!cell(v, a, b).visited);
                                if q == cur {
                                    assert(in_grid(v1, cols, nr as int, nc as int));
                                    assert(cell(v1, nr as int, nc as int).visited);
                                    assert(cell(w, nr as int, nc as int).visited);
                                } else {
                                    let p = crate::grid::parent_of(v, a, b);
                                    assert(cell(v1, a, b) == cell(v, a, b));
                                    let k = choose|k: int| 0 <= k < ex.len() && ex[k] == (p.0 as usize, p.1 as usize);
                                    assert(ex[k] == (p.0 as usize, p.1 as usize));
                                    assert(in_grid(v, cols, p.0, p.1));
                                    assert(in_grid(v1, cols, p.0, p.1));
                                    assert(ex.contains((p.0 as usize, p.1 as usize)));
                                    assert(cell(w, p.0, p.1).visited);
                                }
                            } else {
                                assert(cell(v, a, b).visited);
                                assert(in_tree(v, a, b));
                                assert(cell(v1, a, b) == cell(v, a, b));
                                if !(a == self.root.0 && b == self.root.1) {
                                    let p = crate::grid::parent_of(v, a, b);
                                    assert(in_grid(v, cols, p.0, p.1));
                                    let pq = (p.0 as usize, p.1 as usize);
                                    assert(!ex.contains(pq)) by {
                                        if ex.contains(pq) {
                                            let k = choose|k: int| 0 <= k < ex.len() && ex[k] == pq;
                                            assert(ex[k] == pq);
                                        }
                                    }
                                    assert(cell(v, p.0, p.1).visited);
                                    assert(in_grid(v1, cols, p.0, p.1));
                                    assert(!(p.0 == r && p.1 == c));
                                    assert(cell(v1, p.0, p.1) == cell(v, p.0, p.1));
                                    assert(cell(w, p.0, p.1).visited);
                                }
                            }
                        }
                    }
                } else {
                    self.excursion.push((nr, nc));
                    self.phase = Phase::Walk(nr, nc);
                    let ghost n = (nr, nc);
                    let ghost new_stamp = |q: (usize, usize)| if q == n { stamp(cur) + 1 } else { stamp(q) };
                    self.stamp = Ghost(new_stamp);
                    proof {
                        let ex1 = self.excursion@;
                        assert(ex1 == ex.push(n));
                        assert(ex1[ex.len() as int] == n);
                        assert forall|i: int| 0 <= i < ex1.len() implies {
                            &&& in_grid(v1, cols, (#[trigger] ex1[i]).0 as int, ex1[i].1 as int)
                            &&& !cell(v1, ex1[i].0 as int, ex1[i].1 as int).visited
                            &&& new_stamp(ex1[i]) <= new_stamp(n)
                        } by {
                            if i < ex.len() {
                                assert(ex1[i] == ex[i]);
                                assert(in_grid(v, cols, ex[i].0 as int, ex[i].1 as int));
                            }
                        }
                        assert forall|i: int| 0 <= i < ex1.len() && (#[trigger] ex1[i]) != n implies {
                            let p = crate::grid::parent_of(v1, ex1[i].0 as int, ex1[i].1 as int);
                            &&& cell(v1, ex1[i].0 as int, ex1[i].1 as int).kind is Path
                            &&& in_grid(v1, cols, p.0, p.1)
                            &&& ex1.contains((p.0 as usize, p.1 as usize))
                            &&& new_stamp(ex1[i]) < new_stamp((p.0 as usize, p.1 as usize))
                        } by {
                            assert(i < ex.len());
                            assert(ex1[i] == ex[i]);
                            let e = ex[i];
                            assert(in_grid(v, cols, e.0 as int, e.1 as int));
                            if e != cur {
                                let p = crate::grid::parent_of(v, e.0 as int, e.1 as int);
                                assert(cell(v1, e.0 as int, e.1 as int) == cell(v, e.0 as int, e.1 as int));
                                let k = choose|k: int| 0 <= k < ex.len() && ex[k] == (p.0 as usize, p.1 as usize);
                                assert(ex1[k] == ex[k]);
                            }
                        }
                        assert forall|a: int, b: int| in_grid(v1, cols, a, b) && #[trigger] in_tree(v1, a, b) implies {
                            if a == self.root.0 && b == self.root.1 {
                                cell(v1, a, b).kind == CellKind::Floor
                            } else {
                                let p = crate::grid::parent_of(v1, a, b);
                                &&& cell(v1, a, b).kind is Path
                                &&& in_grid(v1, cols, p.0, p.1)
                                &&& cell(v1, p.0, p.1).visited
                                &&& rank((p.0 as usize, p.1 as usize)) < rank((a as usize, b as usize))
                            }
                        } by {
                            assert(in_grid(v, cols, a, b));
                            assert(!(a == r && b == c));
                            assert(in_tree(v, a, b));
                            if !(a == self.root.0 && b == self.root.1) {
                                let p = crate::grid::parent_of(v, a, b);
                                assert(in_grid(v, cols, p.0, p.1));
                                assert(cell(v1, p.0, p.1) == cell(v, p.0, p.1));
                            }
                        }
                    }
                }
            },
        }
    }

    /// The finished maze.
    pub fn into_grid(self) -> (g: LogicalGrid)
        requires
            self.wf(),
            self@.phase == Phase::Done,
        ensures
            g.wf(),
            g.view() == self@.grid,
            g.num_cols() == self@.cols,
            spanning_tree(g.view(), g.num_cols(), (self@.root.0 as int, self@.root.1 as int)),
    {
        proof {
            let v = self.grid.view();
            let cols = self.grid.num_cols();
            lemma_unvisited(v, cols);
            assert(in_tree(v, self.root.0 as int, self.root.1 as int));
            assert forall|r: int, c: int| in_grid(v, cols, r, c) && (r, c) != (self.root.0 as int, self.root.1 as int)
                implies {
                    &&& (#[trigger] cell(v, r, c)).kind is Path
                    &&& in_grid(v, cols, crate::grid::parent_of(v, r, c).0, crate::grid::parent_of(v, r, c).1)
                } by {
                assert(in_tree(v, r, c));
            }
            assert forall|r: int, c: int| #[trigger] in_grid(v, cols, r, c)
                implies exists|k: nat| crate::grid::follow(v, (r, c), k) == (self.root.0 as int, self.root.1 as int) by {
                let k = lemma_reaches_root(v, cols, self.root, self.rank@, r, c);
            }
        }
        self.grid
    }
}

/// The most draws one maze may take.
pub const MAX_DRAWS: u64 = 0xffff_ffff_ffff_ffff;

/// Generates a `height x width` maze, drawing from `rng`.
///
/// On success every cell is in one spanning tree: a single floor cell is the
/// root, and from every other cell the path pointers lead to it. The maze is
/// what the builder makes of the draws taken, in order.
pub fn generate(width: usize, height: usize, rng: &mut StdRng) -> (r: Result<LogicalGrid, MazeError>)
    ensures
        (width < 2 || height < 2) <==> r == Err::<LogicalGrid, MazeError>(MazeError::InvalidDimensions),
        (width >= 2 && height >= 2 && (width > MAX_SIDE || height > MAX_SIDE))
            <==> r == Err::<LogicalGrid, MazeError>(MazeError::TooLarge),
        r matches Ok(g) ==> {
            &&& g.wf()
            &&& g.num_rows() == height
            &&& g.num_cols() == width
            &&& exists|root: (int, int)| #[trigger] spanning_tree(g.view(), g.num_cols(), root)
            &&& exists|rolls: Seq<nat>| #[trigger] built_from(width as nat, height as nat, rolls, g.view())
        },
        r == Err::<LogicalGrid, MazeError>(MazeError::WalkTooLong)
            ==> exists|rolls: Seq<nat>| #[trigger] stalled(width as nat, height as nat, rolls),
{
    let mut b = match MazeBuilder::new(width, height) {
        Err(e) => return Err(e),
        Ok(b) => b,
    };
    let ghost st = start(width as nat, height as nat);
    let ghost mut rolls: Seq<nat> = Seq::empty();
    let mut budget: u64 = MAX_DRAWS;
    while !b.is_done()
        invariant
            b.wf(),
            st == start(width as nat, height as nat),
            b@ == run(st, rolls),
            valid_draws(st, rolls),
            rolls.len() + budget == MAX_DRAWS,
            b@.grid.len() == height,
            b@.cols == width,
            2 <= width <= MAX_SIDE,
            2 <= height <= MAX_SIDE,
        decreases budget,
    {
        if budget == 0 {
            proof {
                assert(stalled(width as nat, height as nat, rolls));
            }
            return Err(MazeError::WalkTooLong);
        }
        let bound = b.pending_bound();
        let roll = draw_in(rng, 0, bound);
        b.feed(roll);
        proof {
            let old_rolls = rolls;
            rolls = rolls.push(roll as nat);
            assert(rolls.drop_last() =~= old_rolls);
            assert(valid_draws(st, rolls));
        }
        budget = budget - 1;
    }
    let root = b.root();
    let ghost done = b@;
    let g = b.into_grid();
    proof {
        assert(built_from(width as nat, height as nat, rolls, g.view()));
        assert(g.wf());
        assert(g.num_rows() == height);
        assert(g.num_cols() == width);
        let wit = (root.0 as int, root.1 as int);
        assert(spanning_tree(g.view(), g.num_cols(), wit));
        assert(exists|rt: (int, int)| #[trigger] spanning_tree(g.view(), g.num_cols(), rt));
        assert(spanning_tree(g.view(), g.num_cols(), (root.0 as int, root.1 as int)));
    }
    Ok(g)
}

/// The maze is a function of its dimensions and the draws: two runs that
/// take the same draws on the same dimensions build the same grid.
pub proof fn lemma_same_draws_same_maze(
    width: nat,
    height: nat,
    rolls: Seq<nat>,
    v1: Seq<Seq<Cell>>,
    v2: Seq<Seq<Cell>>,
)
    requires
        built_from(width, height, rolls, v1),
        built_from(width, height, rolls, v2),
    ensures
        v1 == v2,
{
}

} // verus!
