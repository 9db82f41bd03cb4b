//! Expansion of a logical grid into a tile grid: each logical cell becomes
//! the centre of a 3x3 block (blocks share their borders), with the border
//! toward its parent opened; then every tile is doubled and the outermost
//! ring trimmed, which widens corridors to two tiles.
use vstd::prelude::*;
use crate::grid::{cell, Cell, CellKind, Direction, LogicalGrid};

verus! {

/// One tile of an expanded grid.
#[derive(Clone, Copy, Debug, PartialEq, Eq, Structural)]
pub enum Tile {
    Wall,
    Floor,
}

/// The tile at `(rr, cc)` of the blueprint of `v` (a grid of `v.len()` rows
/// of `cols` cells): a cell's centre `(2r+1, 2c+1)` is open unless the cell
/// is a wall, the tile between two neighbouring centres is open when either
/// of the two cells points at the other, and the corners are walls.
pub open spec fn blueprint_tile(v: Seq<Seq<Cell>>, cols: nat, rr: int, cc: int) -> Tile {
    if rr % 2 == 1 && cc % 2 == 1 {
        if cell(v, (rr - 1) / 2, (cc - 1) / 2).kind == CellKind::Wall { Tile::Wall } else { Tile::Floor }
    } else if rr % 2 == 0 && cc % 2 == 1 {
        let c = (cc - 1) / 2;
        let above = rr / 2 - 1;
        let below = rr / 2;
        if (above >= 0 && cell(v, above, c).kind == CellKind::Path(Direction::Down))
            || (below < v.len() && cell(v, below, c).kind == CellKind::Path(Direction::Up)) {
            Tile::Floor
        } else {
            Tile::Wall
        }
    } else if rr % 2 == 1 && cc % 2 == 0 {
        let r = (rr - 1) / 2;
        let left = cc / 2 - 1;
        let right = cc / 2;
        if (left >= 0 && cell(v, r, left).kind == CellKind::Path(Direction::Right))
            || (right < cols && cell(v, r, right).kind == CellKind::Path(Direction::Left)) {
            Tile::Floor
        } else {
            Tile::Wall
        }
    } else {
        Tile::Wall
    }
}

/// The blueprint of `v`: `(2 rows + 1) x (2 cols + 1)` tiles.
pub open spec fn blueprint(v: Seq<Seq<Cell>>, cols: nat) -> Seq<Seq<Tile>> {
    Seq::new(2 * v.len() + 1, |rr: int| Seq::new(2 * cols + 1, |cc: int| blueprint_tile(v, cols, rr, cc)))
}

/// `t` (of `cols` columns) with every tile doubled in both directions and the
/// outermost ring of the result removed.
pub open spec fn doubled(t: Seq<Seq<Tile>>, cols: nat) -> Seq<Seq<Tile>> {
    Seq::new((2 * t.len() - 2) as nat, |i: int| Seq::new((2 * cols - 2) as nat, |j: int| t[(i + 1) / 2][(j + 1) / 2]))
}

/// The expansion of `v`: the doubled blueprint, `4 rows x 4 cols` tiles.
pub open spec fn expanded(v: Seq<Seq<Cell>>, cols: nat) -> Seq<Seq<Tile>> {
    doubled(blueprint(v, cols), 2 * cols + 1)
}

/// A rectangle of tiles, stored row by row.
pub struct ExpandedGrid {
    tiles: Vec<Vec<Tile>>,
    cols: usize,
}

impl ExpandedGrid {
    /// The tiles, row by row.
    pub closed spec fn view(&self) -> Seq<Seq<Tile>> {
        self.tiles@.map_values(|row: Vec<Tile>| row@)
    }

    pub closed spec fn num_cols(&self) -> nat {
        self.cols as nat
    }

    pub open spec fn num_rows(&self) -> nat {
        self.view().len()
    }

    pub open spec fn in_bounds(&self, row: int, col: int) -> bool {
        0 <= row < self.num_rows() && 0 <= col < self.num_cols()
    }

    /// Every row is as long as the number of columns.
    pub open spec fn wf(&self) -> bool {
        forall|r: int| 0 <= r < self.num_rows() ==> #[trigger] self.view()[r].len() == self.num_cols()
    }

    proof fn lemma_view(&self)
        ensures
            self.view().len() == self.tiles@.len(),
            forall|r: int| 0 <= r < self.tiles@.len() ==> #[trigger] self.view()[r] == self.tiles@[r]@,
    {
    }

    /// The number of rows.
    pub fn rows(&self) -> (r: usize)
        ensures
            r == self.num_rows(),
    {
        self.tiles.len()
    }

    /// The number of columns.
    pub fn cols(&self) -> (r: usize)
        ensures
            r == self.num_cols(),
    {
        self.cols
    }

    /// The tile at `(row, col)`.
    pub fn get(&self, row: usize, col: usize) -> (r: Tile)
        requires
            self.wf(),
            self.in_bounds(row as int, col as int),
        ensures
            r == self.view()[row as int][col as int],
    {
        proof {
            self.lemma_view();
            assert(self.view()[row as int].len() == self.num_cols());
        }
        self.tiles[row][col]
    }

    /// Whether the tile at `(row, col)` is a wall.
    pub fn is_wall(&self, row: usize, col: usize) -> (r: bool)
        requires
            self.wf(),
            self.in_bounds(row as int, col as int),
        ensures
            r == (self.view()[row as int][col as int] == Tile::Wall),
    {
        self.get(row, col) == Tile::Wall
    }
}

/// The blueprint tile at `(rr, cc)` of `g`.
fn blueprint_tile_at(g: &LogicalGrid, rr: usize, cc: usize) -> (t: Tile)
    requires
        g.wf(),
        rr < 2 * g.num_rows() + 1,
        cc < 2 * g.num_cols() + 1,
    ensures
        t == blueprint_tile(g.view(), g.num_cols(), rr as int, cc as int),
{
    if rr % 2 == 1 && cc % 2 == 1 {
        if matches!(g.get((rr - 1) / 2, (cc - 1) / 2).kind, CellKind::Wall) {
            Tile::Wall
        } else {
            Tile::Floor
        }
    } else if rr % 2 == 0 && cc % 2 == 1 {
        let c = (cc - 1) / 2;
        let below = rr / 2;
        let from_above = below >= 1 && matches!(g.get(below - 1, c).kind, CellKind::Path(Direction::Down));
        let from_below = below < g.rows() && matches!(g.get(below, c).kind, CellKind::Path(Direction::Up));
        if from_above || from_below {
            Tile::Floor
        } else {
            Tile::Wall
        }
    } else if rr % 2 == 1 && cc % 2 == 0 {
        let r = (rr - 1) / 2;
        let right = cc / 2;
        let from_left = right >= 1 && matches!(g.get(r, right - 1).kind, CellKind::Path(Direction::Right));
        let from_right = right < g.cols() && matches!(g.get(r, right).kind, CellKind::Path(Direction::Left));
        if from_left || from_right {
            Tile::Floor
        } else {
            Tile::Wall
        }
    } else {
        Tile::Wall
    }
}

/// The blueprint of `g`: `(2 rows + 1) x (2 cols + 1)` tiles, where each
/// cell's centre is open unless it is a wall, and a path cell also opens the
/// tile one step toward its parent.
pub fn blueprint_to_grid(g: &LogicalGrid) -> (r: ExpandedGrid)
    requires
        g.wf(),
    ensures
        r.wf(),
        r.num_cols() == 2 * g.num_cols() + 1,
        r.view() == blueprint(g.view(), g.num_cols()),
{
    let rows_out = 2 * g.rows() + 1;
    let cols_out = 2 * g.cols() + 1;
    let ghost want = blueprint(g.view(), g.num_cols());
    let mut tiles: Vec<Vec<Tile>> = Vec::new();
    let mut rr: usize = 0;
    while rr < rows_out
        invariant
            g.wf(),
            rows_out == 2 * g.num_rows() + 1,
            cols_out == 2 * g.num_cols() + 1,
            want == blueprint(g.view(), g.num_cols()),
            rr <= rows_out,
            tiles@.len() == rr,
            forall|k: int| 0 <= k < rr ==> #[trigger] tiles@[k]@ == want[k],
        decreases rows_out - rr,
    {
        let mut row: Vec<Tile> = Vec::new();
        let mut cc: usize = 0;
        while cc < cols_out
            invariant
                g.wf(),
                rows_out == 2 * g.num_rows() + 1,
                cols_out == 2 * g.num_cols() + 1,
                want == blueprint(g.view(), g.num_cols()),
                rr < rows_out,
                cc <= cols_out,
                row@ == want[rr as int].take(cc as int),
            decreases cols_out - cc,
        {
            let t = blueprint_tile_at(g, rr, cc);
            row.push(t);
            proof {
                assert(want[rr as int].take(cc as int + 1) =~= want[rr as int].take(cc as int).push(t));
            }
            cc = cc + 1;
        }
        proof {
            assert(want[rr as int].take(cc as int) =~= want[rr as int]);
        }
        tiles.push(row);
        rr = rr + 1;
    }
    let r = ExpandedGrid { tiles, cols: cols_out };
    proof {
        r.lemma_view();
        assert(r.view() =~= want);
    }
    r
}

/// `t` with every tile doubled in both directions and the outermost ring
/// removed: `(2 rows - 2) x (2 cols - 2)` tiles, where tile `(i, j)` is
/// tile `((i + 1) / 2, (j + 1) / 2)` of `t`.
pub fn double_grid(t: &ExpandedGrid) -> (r: ExpandedGrid)
    requires
        t.wf(),
        1 <= t.num_rows(),
        1 <= t.num_cols(),
        2 * t.num_rows() <= usize::MAX,
        2 * t.num_cols() <= usize::MAX,
    ensures
        r.wf(),
        r.num_cols() == 2 * t.num_cols() - 2,
        r.view() == doubled(t.view(), t.num_cols()),
{
    let rows_out = 2 * t.rows() - 2;
    let cols_out = 2 * t.cols() - 2;
    let ghost want = doubled(t.view(), t.num_cols());
    let mut tiles: Vec<Vec<Tile>> = Vec::new();
    let mut i: usize = 0;
    while i < rows_out
        invariant
            t.wf(),
            rows_out == 2 * t.num_rows() - 2,
            cols_out == 2 * t.num_cols() - 2,
            want == doubled(t.view(), t.num_cols()),
            i <= rows_out,
            tiles@.len() == i,
            forall|k: int| 0 <= k < i ==> #[trigger] tiles@[k]@ == want[k],
        decreases rows_out - i,
    {
        let mut row: Vec<Tile> = Vec::new();
        let mut j: usize = 0;
        while j < cols_out
            invariant
                t.wf(),
                rows_out == 2 * t.num_rows() - 2,
                cols_out == 2 * t.num_cols() - 2,
                want == doubled(t.view(), t.num_cols()),
                i < rows_out,
                j <= cols_out,
                row@ == want[i as int].take(j as int),
            decreases cols_out - j,
        {
            let x = t.get((i + 1) / 2, (j + 1) / 2);
            row.push(x);
            proof {
                assert(want[i as int].take(j as int + 1) =~= want[i as int].take(j as int).push(x));
            }
            j = j + 1;
        }
        proof {
            assert(want[i as int].take(j as int) =~= want[i as int]);
        }
        tiles.push(row);
        i = i + 1;
    }
    let r = ExpandedGrid { tiles, cols: cols_out };
    proof {
        r.lemma_view();
        assert(r.view() =~= want);
    }
    r
}

/// The expansion of `g`: its blueprint, doubled and trimmed. A `W x H`
/// grid gives `4H x 4W` tiles (`2 (2H + 1) - 2` rows), and the result is
/// a function of `g`'s cells alone.
pub fn expand(g: &LogicalGrid) -> (r: ExpandedGrid)
    requires
        g.wf(),
    ensures
        r.wf(),
        r.num_rows() == 4 * g.num_rows(),
        r.num_cols() == 4 * g.num_cols(),
        r.view() == expanded(g.view(), g.num_cols()),
{
    let b = blueprint_to_grid(g);
    let r = double_grid(&b);
    r
}

impl ExpandedGrid {
    fn open_tile(&mut self, row: usize, col: usize)
        requires
            old(self).wf(),
            old(self).in_bounds(row as int, col as int),
        ensures
            final(self).wf(),
            final(self).num_cols() == old(self).num_cols(),
            final(self).view() == old(self).view().update(row as int, old(self).view()[row as int].update(col as int, Tile::Floor)),
    {
        proof {
            self.lemma_view();
            assert(self.view()[row as int].len() == self.num_cols());
        }
        self.tiles[row][col] = Tile::Floor;
        proof {
            self.lemma_view();
            assert(self.view() =~= old(self).view().update(row as int, old(self).view()[row as int].update(col as int, Tile::Floor)));
            assert forall|r: int| 0 <= r < self.num_rows() implies #[trigger] self.view()[r].len() == self.num_cols() by {
                if r != row {
                    assert(self.view()[r] == old(self).view()[r]);
                }
            }
        }
    }

    /// Forces every door inside the grid open; doors outside it are ignored.
    pub fn open_doors(&mut self, doors: &Vec<(usize, usize)>)
        requires
            old(self).wf(),
        ensures
            final(self).wf(),
            final(self).num_rows() == old(self).num_rows(),
            final(self).num_cols() == old(self).num_cols(),
            forall|i: int, j: int| #[trigger] old(self).in_bounds(i, j) ==> final(self).view()[i][j] == (
                if doors@.contains((i as usize, j as usize)) { Tile::Floor } else { old(self).view()[i][j] }),
    {
        let mut k: usize = 0;
        while k < doors.len()
            invariant
                self.wf(),
                self.num_rows() == old(self).num_rows(),
                self.num_cols() == old(self).num_cols(),
                k <= doors@.len(),
                forall|r: int| 0 <= r < self.num_rows() ==> #[trigger] self.view()[r].len() == self.num_cols(),
                forall|i: int, j: int| #[trigger] old(self).in_bounds(i, j) ==> self.view()[i][j] == (
                    if doors@.take(k as int).contains((i as usize, j as usize)) { Tile::Floor } else { old(self).view()[i][j] }),
            decreases doors@.len() - k,
        {
            let (r, c) = doors[k];
            let ghost before = self.view();
            if r < self.rows() && c < self.cols() {
                self.open_tile(r, c);
            }
            proof {
                let pre = doors@.take(k as int);
                let post = doors@.take(k as int + 1);
                assert(post =~= pre.push((r, c)));
                assert forall|i: int, j: int| #[trigger] old(self).in_bounds(i, j) implies self.view()[i][j] == (
                    if post.contains((i as usize, j as usize)) { Tile::Floor } else { old(self).view()[i][j] }) by {
                    let q = (i as usize, j as usize);
                    if post.contains(q) && q != (r, c) {
                        let m = choose|m: int| 0 <= m < post.len() && post[m] == q;
                        assert(pre[m] == q);
                    }
                    if pre.contains(q) {
                        let m = choose|m: int| 0 <= m < pre.len() && pre[m] == q;
                        assert(post[m] == q);
                    }
                    if q == (r, c) {
                        assert(post[k as int] == q);
                    }
                }
            }
            k = k + 1;
        }
        proof {
            assert(doors@.take(k as int) =~= doors@);
        }
    }
}

/// The door tiles of the dungeon layout, as (row, column) of its expanded
/// 8x8 maze: openings toward the start room, the side rooms and the boss room.
pub fn dungeon_doors() -> (r: Vec<(usize, usize)>)
    ensures
        r@ == seq![
            (18usize, 0usize), (17, 0), (31, 5), (31, 6), (31, 17), (31, 18), (31, 25), (31, 26), (0, 5),
            (0, 6), (0, 13), (0, 14), (0, 25), (0, 26), (21, 31), (22, 31), (9, 31), (10, 31),
        ],
{
    let r: Vec<(usize, usize)> = vec![
        (18, 0), (17, 0),
        (31, 5), (31, 6),
        (31, 17), (31, 18),
        (31, 25), (31, 26),
        (0, 5), (0, 6),
        (0, 13), (0, 14),
        (0, 25), (0, 26),
        (21, 31), (22, 31),
        (9, 31), (10, 31),
    ];
    r
}

/// Expansion draws on nothing but the grid: two expansions of grids with
/// the same cells are the same tiles.
pub proof fn lemma_expansion_is_pure(g1: LogicalGrid, g2: LogicalGrid, e1: ExpandedGrid, e2: ExpandedGrid)
    requires
        g1.view() == g2.view(),
        g1.num_cols() == g2.num_cols(),
        e1.view() == expanded(g1.view(), g1.num_cols()),
        e2.view() == expanded(g2.view(), g2.num_cols()),
    ensures
        e1.view() == e2.view(),
{
}

} // verus!
