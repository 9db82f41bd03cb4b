use dungeon_gen::expand::{blueprint_to_grid, expand, Tile};
use dungeon_gen::grid::{CellKind, Direction, LogicalGrid, MazeError};
use dungeon_gen::maze::{direction_from_roll, generate, unvisited_cells, MazeBuilder, Phase};
use rand::rngs::StdRng;
use rand::SeedableRng;

fn kind_at(g: &LogicalGrid, r: usize, c: usize) -> CellKind {
    g.get(r, c).kind
}

fn find_root(g: &LogicalGrid) -> (usize, usize) {
    let mut found = Vec::new();
    for r in 0..g.rows() {
        for c in 0..g.cols() {
            if kind_at(g, r, c) == CellKind::Floor {
                found.push((r, c));
            }
        }
    }
    assert_eq!(found.len(), 1, "exactly one root");
    found[0]
}

fn parent(r: usize, c: usize, d: Direction) -> (i64, i64) {
    let (r, c) = (r as i64, c as i64);
    match d {
        Direction::Up => (r - 1, c),
        Direction::Down => (r + 1, c),
        Direction::Left => (r, c - 1),
        Direction::Right => (r, c + 1),
    }
}

fn assert_spanning_tree(g: &LogicalGrid) {
    let root = find_root(g);
    let n = g.rows() * g.cols();
    for r in 0..g.rows() {
        for c in 0..g.cols() {
            let mut cur = (r, c);
            let mut steps = 0;
            while cur != root {
                let cell = g.get(cur.0, cur.1);
                assert!(cell.visited);
                let d = match cell.kind {
                    CellKind::Path(d) => d,
                    other => panic!("cell {:?} is {:?}", cur, other),
                };
                assert_eq!(cell.direction, Some(d));
                let (pr, pc) = parent(cur.0, cur.1, d);
                assert!(pr >= 0 && pc >= 0 && (pr as usize) < g.rows() && (pc as usize) < g.cols());
                cur = (pr as usize, pc as usize);
                steps += 1;
                assert!(steps <= n, "pointer cycle from {:?}", (r, c));
            }
        }
    }
}

fn run_rolls(width: usize, height: usize, rolls: &[usize]) -> MazeBuilder {
    let mut b = MazeBuilder::new(width, height).unwrap();
    for &roll in rolls {
        assert!(roll < b.pending_bound());
        b.feed(roll);
    }
    b
}

#[test]
fn generate_rejects_small_dimensions() {
    let mut rng = StdRng::seed_from_u64(1);
    assert!(matches!(generate(1, 4, &mut rng), Err(MazeError::InvalidDimensions)));
    assert!(matches!(generate(4, 1, &mut rng), Err(MazeError::InvalidDimensions)));
    assert!(matches!(generate(0, 0, &mut rng), Err(MazeError::InvalidDimensions)));
    assert!(matches!(LogicalGrid::new(1, 2), Err(MazeError::InvalidDimensions)));
}

#[test]
fn generate_rejects_huge_dimensions() {
    let mut rng = StdRng::seed_from_u64(1);
    assert!(matches!(generate(0x4000_0000, 2, &mut rng), Err(MazeError::TooLarge)));
    assert!(matches!(MazeBuilder::new(2, 0x4000_0000), Err(MazeError::TooLarge)));
}

#[test]
fn generated_maze_is_a_spanning_tree() {
    for seed in 0..20u64 {
        for &(w, h) in &[(2usize, 2usize), (4, 4), (8, 8), (3, 7), (10, 2)] {
            let mut rng = StdRng::seed_from_u64(seed);
            let g = generate(w, h, &mut rng).unwrap();
            assert_eq!(g.rows(), h);
            assert_eq!(g.cols(), w);
            assert_spanning_tree(&g);
        }
    }
}

#[test]
fn same_seed_same_maze() {
    let mut a = StdRng::seed_from_u64(7);
    let mut b = StdRng::seed_from_u64(7);
    let ga = generate(6, 5, &mut a).unwrap();
    let gb = generate(6, 5, &mut b).unwrap();
    for r in 0..5 {
        for c in 0..6 {
            assert_eq!(ga.get(r, c), gb.get(r, c));
        }
    }
}

#[test]
fn builder_follows_the_draws() {
    let b = run_rolls(2, 2, &[0, 0, 2, 0, 3, 2, 0, 1, 3]);
    assert!(b.is_done());
    assert_eq!(b.pending_bound(), 0);
    assert_eq!(b.root(), (0, 0));
    let g = b.into_grid();
    assert_eq!(kind_at(&g, 0, 0), CellKind::Floor);
    assert_eq!(kind_at(&g, 0, 1), CellKind::Path(Direction::Left));
    assert_eq!(kind_at(&g, 1, 0), CellKind::Path(Direction::Right));
    assert_eq!(kind_at(&g, 1, 1), CellKind::Path(Direction::Up));
    assert_spanning_tree(&g);
}

#[test]
fn builder_phases_and_bounds() {
    let mut b = MazeBuilder::new(3, 2).unwrap();
    assert!(!b.is_done());
    assert_eq!(b.pending_bound(), 2);
    b.feed(1);
    assert_eq!(b.pending_bound(), 3);
    b.feed(2);
    assert_eq!(b.root(), (1, 2));
    assert_eq!(unvisited_cells(b.grid()), vec![(0, 0), (0, 1), (0, 2), (1, 0), (1, 1)]);
    assert_eq!(b.pending_bound(), 5);
    b.feed(0);
    assert_eq!(b.pending_bound(), 4);
    // Up from (0, 0) leaves the grid: nothing changes.
    b.feed(0);
    assert_eq!(kind_at(b.grid(), 0, 0), CellKind::Wall);
    assert_eq!(b.pending_bound(), 4);
}

#[test]
fn walk_that_loops_keeps_last_exit() {
    // Root (0,0) on a 3x2 grid; a walk from (1,2) goes left, right, left,
    // then up into the root's row at (0,1), then left into the root.
    let b = run_rolls(3, 2, &[0, 0, 4, 2, 3, 2, 0, 2]);
    let g = b.grid();
    assert_eq!(kind_at(g, 1, 2), CellKind::Path(Direction::Left));
    assert_eq!(kind_at(g, 1, 1), CellKind::Path(Direction::Up));
    assert_eq!(kind_at(g, 0, 1), CellKind::Path(Direction::Left));
    assert!(g.get(1, 2).visited && g.get(1, 1).visited && g.get(0, 1).visited);
    assert!(!g.get(1, 0).visited && !g.get(0, 2).visited);
}

#[test]
fn roll_directions() {
    assert_eq!(direction_from_roll(0), Direction::Up);
    assert_eq!(direction_from_roll(1), Direction::Down);
    assert_eq!(direction_from_roll(2), Direction::Left);
    assert_eq!(direction_from_roll(3), Direction::Right);
}

#[test]
fn grid_helpers() {
    let mut g = LogicalGrid::new(3, 2).unwrap();
    assert_eq!(g.rows(), 2);
    assert_eq!(g.cols(), 3);
    assert!(g.is_within_bounds(1, 2));
    assert!(!g.is_within_bounds(2, 0));
    assert_eq!(g.next_cell(0, 0, Direction::Up), None);
    assert_eq!(g.next_cell(0, 0, Direction::Right), Some((0, 1)));
    assert_eq!(g.next_cell(1, 2, Direction::Right), None);
    assert_eq!(g.next_cell(1, 2, Direction::Up), Some((0, 2)));
    g.mark_with_direction(1, 1, Direction::Left);
    assert_eq!(g.get(1, 1).direction, Some(Direction::Left));
    assert!(!g.in_ust(1, 1));
    g.add_to_ust(1, 1);
    assert!(g.in_ust(1, 1));
    g.mark_wall(1, 1);
    assert_eq!(g.get(1, 1).kind, CellKind::Wall);
    assert_eq!(g.get(1, 1).direction, None);
    assert!(g.in_ust(1, 1));
    // Outside the grid nothing changes.
    g.mark_with_direction(5, 0, Direction::Up);
    g.mark_wall(0, 7);
    g.add_to_ust(9, 9);
    assert_eq!(g.get(0, 0).kind, CellKind::Wall);
    assert!(!g.in_ust(0, 0));
}

#[test]
fn root_neighbourhood_of_seeded_maze() {
    let mut rng = StdRng::seed_from_u64(42);
    let g = generate(4, 4, &mut rng).unwrap();
    let (rr, rc) = find_root(&g);
    let b = blueprint_to_grid(&g);
    let (cr, cc) = (2 * rr + 1, 2 * rc + 1);
    assert_eq!(b.get(cr, cc), Tile::Floor);
    // Each side of the root's block is open exactly when the neighbour there
    // points at the root; the corners stay walls.
    let sides = [
        (cr - 1, cc, rr.checked_sub(1).map(|r| (r, rc)), Direction::Down),
        (cr + 1, cc, if rr + 1 < 4 { Some((rr + 1, rc)) } else { None }, Direction::Up),
        (cr, cc - 1, rc.checked_sub(1).map(|c| (rr, c)), Direction::Right),
        (cr, cc + 1, if rc + 1 < 4 { Some((rr, rc + 1)) } else { None }, Direction::Left),
    ];
    let mut children = 0;
    for (tr, tc, nb, toward) in sides {
        let child = nb.map_or(false, |(r, c)| kind_at(&g, r, c) == CellKind::Path(toward));
        if child {
            children += 1;
        }
        assert_eq!(b.get(tr, tc) == Tile::Floor, child);
    }
    assert!(children >= 1);
    for (dr, dc) in [(0, 0), (0, 2), (2, 0), (2, 2)] {
        assert_eq!(b.get(cr - 1 + dr, cc - 1 + dc), Tile::Wall);
    }
    let e = expand(&g);
    assert_eq!((e.rows(), e.cols()), (16, 16));
}
