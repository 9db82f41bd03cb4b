use dungeon_gen::expand::{blueprint_to_grid, double_grid, dungeon_doors, expand, ExpandedGrid, Tile};
use dungeon_gen::grid::{CellKind, Direction, LogicalGrid};
use dungeon_gen::maze::{generate, MazeBuilder};
use rand::rngs::StdRng;
use rand::SeedableRng;

fn render(e: &ExpandedGrid) -> Vec<String> {
    (0..e.rows())
        .map(|r| (0..e.cols()).map(|c| if e.get(r, c) == Tile::Wall { 'W' } else { 'F' }).collect())
        .collect()
}

fn small_maze() -> LogicalGrid {
    let mut b = MazeBuilder::new(2, 2).unwrap();
    for roll in [0, 0, 2, 0, 3, 2, 0, 1, 3] {
        b.feed(roll);
    }
    b.into_grid()
}

#[test]
fn blueprint_opens_centres_and_parent_sides() {
    let g = small_maze();
    let b = blueprint_to_grid(&g);
    assert_eq!(render(&b), vec!["WWWWW", "WFFFW", "WWWFW", "WFFFW", "WWWWW"]);
}

#[test]
fn blueprint_of_walls_is_closed() {
    let g = LogicalGrid::new(2, 3).unwrap();
    let b = blueprint_to_grid(&g);
    assert_eq!((b.rows(), b.cols()), (7, 5));
    assert!(render(&b).iter().all(|row| row.chars().all(|ch| ch == 'W')));
}

#[test]
fn blueprint_path_on_border_opens_border() {
    let mut g = LogicalGrid::new(2, 2).unwrap();
    g.mark_with_direction(0, 1, Direction::Up);
    let b = blueprint_to_grid(&g);
    assert_eq!(b.get(1, 3), Tile::Floor);
    assert_eq!(b.get(0, 3), Tile::Floor);
    assert_eq!(b.get(1, 1), Tile::Wall);
}

#[test]
fn expansion_doubles_and_trims() {
    let g = small_maze();
    let e = expand(&g);
    assert_eq!(
        render(&e),
        vec!["WWWWWWWW", "WFFFFFFW", "WFFFFFFW", "WWWWWFFW", "WWWWWFFW", "WFFFFFFW", "WFFFFFFW", "WWWWWWWW"]
    );
    let d = double_grid(&blueprint_to_grid(&g));
    assert_eq!(render(&d), render(&e));
}

#[test]
fn expansion_dimensions() {
    for &(w, h) in &[(4usize, 4usize), (3, 5), (2, 2), (8, 8)] {
        let mut rng = StdRng::seed_from_u64(3);
        let g = generate(w, h, &mut rng).unwrap();
        let b = blueprint_to_grid(&g);
        assert_eq!((b.rows(), b.cols()), (2 * h + 1, 2 * w + 1));
        let e = expand(&g);
        assert_eq!(e.rows(), 2 * (2 * h + 1) - 2);
        assert_eq!(e.cols(), 2 * (2 * w + 1) - 2);
    }
    let mut rng = StdRng::seed_from_u64(3);
    let e = expand(&generate(4, 4, &mut rng).unwrap());
    assert_eq!((e.rows(), e.cols()), (16, 16));
}

#[test]
fn expanding_twice_gives_the_same_grid() {
    let mut rng = StdRng::seed_from_u64(11);
    let g = generate(5, 4, &mut rng).unwrap();
    assert_eq!(render(&expand(&g)), render(&expand(&g)));
}

#[test]
fn root_centre_stays_open() {
    let mut rng = StdRng::seed_from_u64(5);
    let g = generate(3, 3, &mut rng).unwrap();
    let e = expand(&g);
    for r in 0..3 {
        for c in 0..3 {
            assert_ne!(g.get(r, c).kind, CellKind::Wall);
            // The centre of block (r, c) lands on rows/cols 4r+1..=4r+2.
            assert_eq!(e.get(4 * r + 1, 4 * c + 1), Tile::Floor);
            assert_eq!(e.get(4 * r + 2, 4 * c + 2), Tile::Floor);
        }
    }
}

#[test]
fn doors_are_forced_open() {
    let mut rng = StdRng::seed_from_u64(9);
    let g = generate(8, 8, &mut rng).unwrap();
    let mut e = expand(&g);
    assert_eq!((e.rows(), e.cols()), (32, 32));
    let before = render(&e);
    let doors = dungeon_doors();
    assert_eq!(doors.len(), 18);
    assert_eq!(doors[0], (18, 0));
    assert_eq!(doors[17], (10, 31));
    // Every door lies on the outer wall before it is opened.
    for &(r, c) in &doors {
        assert!(e.is_wall(r, c));
    }
    e.open_doors(&doors);
    let after = render(&e);
    for r in 0..32 {
        for c in 0..32 {
            let expect = if doors.contains(&(r, c)) { 'F' } else { before[r].as_bytes()[c] as char };
            assert_eq!(after[r].as_bytes()[c] as char, expect);
        }
    }
}

#[test]
fn doors_outside_are_ignored() {
    let g = LogicalGrid::new(2, 2).unwrap();
    let mut e = expand(&g);
    e.open_doors(&vec![(100, 100), (0, 0)]);
    assert_eq!(e.get(0, 0), Tile::Floor);
    assert_eq!(e.get(0, 1), Tile::Wall);
}

#[test]
fn expanded_floor_is_connected() {
    for seed in 0..10u64 {
        let mut rng = StdRng::seed_from_u64(seed);
        let g = generate(5, 4, &mut rng).unwrap();
        let e = expand(&g);
        let (rows, cols) = (e.rows(), e.cols());
        let mut seen = vec![vec![false; cols]; rows];
        let mut stack = vec![(1usize, 1usize)];
        seen[1][1] = true;
        while let Some((r, c)) = stack.pop() {
            let next = [(r.wrapping_sub(1), c), (r + 1, c), (r, c.wrapping_sub(1)), (r, c + 1)];
            for (nr, nc) in next {
                if nr < rows && nc < cols && !seen[nr][nc] && e.get(nr, nc) == Tile::Floor {
                    seen[nr][nc] = true;
                    stack.push((nr, nc));
                }
            }
        }
        for r in 0..rows {
            for c in 0..cols {
                assert_eq!(seen[r][c], e.get(r, c) == Tile::Floor, "seed {} tile {:?}", seed, (r, c));
            }
        }
    }
}
