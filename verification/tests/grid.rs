use sparse_life::grid::LifeGrid;
use sparse_life::rule::{BIRTH_SURVIVE_COUNT, SURVIVE_ONLY_COUNT};
use std::collections::BTreeSet;

fn grid_of(cells: &[(i32, i32)]) -> LifeGrid {
    let mut grid = LifeGrid::new();
    for &cell in cells {
        grid.insert(cell);
    }
    grid
}

fn alive(grid: &LifeGrid) -> BTreeSet<(i32, i32)> {
    let cells = grid.iterate();
    let set: BTreeSet<(i32, i32)> = cells.iter().copied().collect();
    assert_eq!(set.len(), cells.len(), "a cell came out twice");
    set
}

fn set_of(cells: &[(i32, i32)]) -> BTreeSet<(i32, i32)> {
    cells.iter().copied().collect()
}

/// One generation on a square array that spans `-radius..=radius` on both
/// axes, every cell of the array evaluated.
fn reference_step(cells: &BTreeSet<(i32, i32)>, radius: i32) -> BTreeSet<(i32, i32)> {
    let side = (2 * radius + 1) as usize;
    let mut board = vec![vec![false; side]; side];
    for &(x, y) in cells {
        assert!(x.abs() < radius && y.abs() < radius, "pattern left the board");
        board[(y + radius) as usize][(x + radius) as usize] = true;
    }
    let mut next = BTreeSet::new();
    for row in 0..side {
        for col in 0..side {
            let mut count = 0;
            for dy in [-1i64, 0, 1] {
                for dx in [-1i64, 0, 1] {
                    if dx == 0 && dy == 0 {
                        continue;
                    }
                    let r = row as i64 + dy;
                    let c = col as i64 + dx;
                    if r >= 0 && c >= 0 && (r as usize) < side && (c as usize) < side {
                        if board[r as usize][c as usize] {
                            count += 1;
                        }
                    }
                }
            }
            if count == 3 || (count == 2 && board[row][col]) {
                next.insert((col as i32 - radius, row as i32 - radius));
            }
        }
    }
    next
}

#[test]
fn thresholds_are_those_of_standard_life() {
    assert_eq!(BIRTH_SURVIVE_COUNT, 3);
    assert_eq!(SURVIVE_ONLY_COUNT, 2);
}

#[test]
fn new_grid_is_empty() {
    let grid = LifeGrid::new();
    assert!(grid.iterate().is_empty());
    assert!(!grid.contains((0, 0)));
}

#[test]
fn insert_makes_a_cell_alive() {
    let mut grid = LifeGrid::new();
    grid.insert((3, -7));
    assert!(grid.contains((3, -7)));
    assert!(!grid.contains((-7, 3)));
    assert!(!grid.contains((3, 7)));
    assert_eq!(alive(&grid), set_of(&[(3, -7)]));
}

#[test]
fn insert_twice_is_insert_once() {
    let mut once = grid_of(&[(1, 1), (5, 5)]);
    once.insert((2, 3));
    let mut twice = grid_of(&[(1, 1), (5, 5)]);
    twice.insert((2, 3));
    twice.insert((2, 3));
    assert_eq!(alive(&once), alive(&twice));
    assert_eq!(twice.iterate().len(), 3);
}

#[test]
fn remove_makes_a_cell_dead() {
    let mut grid = grid_of(&[(1, 1), (5, 5)]);
    grid.remove((1, 1));
    assert!(!grid.contains((1, 1)));
    assert_eq!(alive(&grid), set_of(&[(5, 5)]));
}

#[test]
fn remove_of_an_absent_cell_changes_nothing() {
    let mut grid = grid_of(&[(1, 1), (5, 5)]);
    grid.remove((2, 2));
    assert_eq!(alive(&grid), set_of(&[(1, 1), (5, 5)]));
}

#[test]
fn clear_empties_the_grid() {
    let mut grid = grid_of(&[(1, 1), (5, 5), (-9, 4)]);
    grid.clear();
    assert!(grid.iterate().is_empty());
    assert!(!grid.contains((1, 1)));
    grid.insert((0, 0));
    assert_eq!(alive(&grid), set_of(&[(0, 0)]));
}

#[test]
fn cells_that_differ_in_one_coordinate_are_distinct() {
    let grid = grid_of(&[(0, 1), (-1, 0), (i32::MAX, i32::MIN), (i32::MIN, i32::MAX)]);
    assert!(grid.contains((0, 1)));
    assert!(!grid.contains((1, 0)));
    assert!(grid.contains((-1, 0)));
    assert!(!grid.contains((0, -1)));
    assert!(grid.contains((i32::MAX, i32::MIN)));
    assert!(grid.contains((i32::MIN, i32::MAX)));
    assert!(!grid.contains((i32::MIN, i32::MIN)));
    assert!(!grid.contains((i32::MAX, i32::MAX)));
    assert_eq!(
        alive(&grid),
        set_of(&[(0, 1), (-1, 0), (i32::MAX, i32::MIN), (i32::MIN, i32::MAX)])
    );
}

#[test]
fn iterate_gives_each_alive_cell_once() {
    let cells = [(0, 0), (1, 0), (2, 0), (-4, 9), (100, -100)];
    let grid = grid_of(&cells);
    let mut listed = grid.iterate();
    listed.sort();
    let mut expected = cells.to_vec();
    expected.sort();
    assert_eq!(listed, expected);
    assert_eq!(alive(&grid), alive(&grid));
}

#[test]
fn neighbors_are_counted_without_the_cell_itself() {
    let grid = grid_of(&[(0, 0), (1, 0), (2, 0)]);
    assert_eq!(grid.count_live_neighbors((0, 0)), 1);
    assert_eq!(grid.count_live_neighbors((1, 0)), 2);
    assert_eq!(grid.count_live_neighbors((1, 1)), 3);
    assert_eq!(grid.count_live_neighbors((1, -1)), 3);
    assert_eq!(grid.count_live_neighbors((3, 0)), 1);
    assert_eq!(grid.count_live_neighbors((4, 0)), 0);
}

#[test]
fn a_full_neighborhood_counts_eight() {
    let mut grid = LifeGrid::new();
    for x in -1..=1 {
        for y in -1..=1 {
            grid.insert((x, y));
        }
    }
    assert_eq!(grid.count_live_neighbors((0, 0)), 8);
    assert_eq!(grid.count_live_neighbors((1, 1)), 3);
    assert_eq!(grid.count_live_neighbors((2, 0)), 3);
}

#[test]
fn neighbors_at_the_corner_of_the_range_are_counted() {
    let grid = grid_of(&[(i32::MAX, i32::MAX), (i32::MAX - 1, i32::MAX), (i32::MIN, i32::MIN)]);
    assert_eq!(grid.count_live_neighbors((i32::MAX, i32::MAX)), 1);
    assert_eq!(grid.count_live_neighbors((i32::MAX, i32::MAX - 1)), 2);
    assert_eq!(grid.count_live_neighbors((i32::MIN, i32::MIN)), 0);
    assert_eq!(grid.count_live_neighbors((i32::MIN + 1, i32::MIN)), 1);
}

#[test]
fn empty_stays_empty() {
    let mut grid = LifeGrid::new();
    assert!(grid.can_step());
    grid.step();
    assert!(grid.iterate().is_empty());
}

#[test]
fn block_is_stable() {
    let block = [(0, 0), (1, 0), (0, 1), (1, 1)];
    let mut grid = grid_of(&block);
    for _ in 0..5 {
        assert!(grid.can_step());
        grid.step();
        assert_eq!(alive(&grid), set_of(&block));
    }
}

#[test]
fn isolated_cell_dies() {
    let mut grid = grid_of(&[(7, -3)]);
    assert!(grid.can_step());
    grid.step();
    assert!(grid.iterate().is_empty());
}

#[test]
fn blinker_oscillates() {
    let row = [(0, 0), (1, 0), (2, 0)];
    let column = [(1, -1), (1, 0), (1, 1)];
    let mut grid = grid_of(&row);
    assert!(grid.can_step());
    grid.step();
    assert_eq!(alive(&grid), set_of(&column));
    assert!(grid.can_step());
    grid.step();
    assert_eq!(alive(&grid), set_of(&row));
}

#[test]
fn dead_cell_with_three_neighbors_is_born() {
    let mut grid = grid_of(&[(-1, -1), (1, -1), (0, 1), (40, 40), (-40, 12)]);
    assert!(!grid.contains((0, 0)));
    assert_eq!(grid.count_live_neighbors((0, 0)), 3);
    assert!(grid.can_step());
    grid.step();
    assert!(grid.contains((0, 0)));
}

#[test]
fn dead_cell_with_two_neighbors_stays_dead() {
    let mut grid = grid_of(&[(-1, -1), (1, 1), (40, 40)]);
    assert_eq!(grid.count_live_neighbors((0, 0)), 2);
    assert!(grid.can_step());
    grid.step();
    assert!(!grid.contains((0, 0)));
}

#[test]
fn dead_cell_with_four_neighbors_stays_dead() {
    let mut grid = grid_of(&[(-1, -1), (1, -1), (-1, 1), (1, 1)]);
    assert_eq!(grid.count_live_neighbors((0, 0)), 4);
    assert!(grid.can_step());
    grid.step();
    assert!(!grid.contains((0, 0)));
}

#[test]
fn alive_cell_survives_with_two_or_three_neighbors() {
    let mut two = grid_of(&[(0, 0), (-1, -1), (1, 1)]);
    assert_eq!(two.count_live_neighbors((0, 0)), 2);
    two.step();
    assert!(two.contains((0, 0)));

    let mut three = grid_of(&[(0, 0), (-1, -1), (1, 1), (1, -1)]);
    assert_eq!(three.count_live_neighbors((0, 0)), 3);
    three.step();
    assert!(three.contains((0, 0)));
}

#[test]
fn alive_cell_dies_with_fewer_than_two_or_more_than_three_neighbors() {
    let around = [(-1, -1), (0, -1), (1, -1), (-1, 0), (1, 0), (-1, 1), (0, 1), (1, 1)];
    for count in [0usize, 1, 4, 5, 6, 7, 8] {
        let mut grid = grid_of(&[(0, 0)]);
        for &cell in &around[..count] {
            grid.insert(cell);
        }
        assert_eq!(grid.count_live_neighbors((0, 0)) as usize, count);
        assert!(grid.can_step());
        grid.step();
        assert!(!grid.contains((0, 0)), "survived with {} neighbours", count);
    }
}

#[test]
fn shared_candidates_are_counted_once() {
    // (1, 0) is a dead neighbour of all three alive cells.
    let mut grid = grid_of(&[(0, 0), (2, 0), (1, 1)]);
    assert_eq!(grid.count_live_neighbors((1, 0)), 3);
    grid.step();
    assert_eq!(alive(&grid), set_of(&[(1, 0), (1, 1)]));
}

#[test]
fn step_agrees_with_a_bounded_board() {
    let patterns: Vec<Vec<(i32, i32)>> = vec![
        vec![(1, 0), (2, 1), (0, 2), (1, 2), (2, 2)],
        vec![(1, 0), (2, 0), (0, 1), (1, 1), (1, 2)],
        vec![(0, 0), (2, 0), (1, 1), (3, 1), (0, 2), (2, 2), (4, 2), (1, 3)],
        vec![(0, 0), (1, 0), (2, 0), (0, 1), (2, 1), (0, 2), (1, 2), (2, 2)],
        vec![(-3, 0), (-2, 0), (-1, 0), (1, 0), (2, 0), (3, 0), (0, -1), (0, 1)],
    ];
    for pattern in patterns {
        let mut grid = grid_of(&pattern);
        let mut expected = set_of(&pattern);
        for _ in 0..12 {
            expected = reference_step(&expected, 30);
            assert!(grid.can_step());
            grid.step();
            assert_eq!(alive(&grid), expected);
        }
    }
}

#[test]
fn same_cells_give_the_same_generations() {
    let cells = [(1, 0), (2, 0), (0, 1), (1, 1), (1, 2), (9, 9), (10, 9), (11, 9)];
    let mut forward = LifeGrid::new();
    for &cell in cells.iter() {
        forward.insert(cell);
    }
    let mut backward = LifeGrid::new();
    for &cell in cells.iter().rev() {
        backward.insert(cell);
        backward.insert(cell);
    }
    backward.insert((50, 50));
    backward.remove((50, 50));
    for _ in 0..20 {
        assert_eq!(alive(&forward), alive(&backward));
        forward.step();
        backward.step();
    }
    assert_eq!(alive(&forward), alive(&backward));
}

#[test]
fn glider_moves_one_cell_in_four_steps() {
    let glider = [(1, 0), (2, 1), (0, 2), (1, 2), (2, 2)];
    let mut grid = grid_of(&glider);
    for _ in 0..4 {
        grid.step();
    }
    let moved: Vec<(i32, i32)> = glider.iter().map(|&(x, y)| (x + 1, y + 1)).collect();
    assert_eq!(alive(&grid), set_of(&moved));
}

#[test]
fn can_step_refuses_a_cell_on_the_edge_of_the_range() {
    assert!(grid_of(&[(i32::MAX - 1, 0), (0, i32::MIN + 1)]).can_step());
    assert!(!grid_of(&[(0, 0), (i32::MAX, 0)]).can_step());
    assert!(!grid_of(&[(0, 0), (i32::MIN, 0)]).can_step());
    assert!(!grid_of(&[(0, 0), (0, i32::MAX)]).can_step());
    assert!(!grid_of(&[(0, 0), (0, i32::MIN)]).can_step());
}

#[test]
fn step_reaches_the_edge_of_the_range() {
    let x = i32::MAX - 1;
    let mut grid = grid_of(&[(x, -1), (x, 0), (x, 1)]);
    assert!(grid.can_step());
    grid.step();
    assert_eq!(alive(&grid), set_of(&[(x - 1, 0), (x, 0), (i32::MAX, 0)]));
    assert!(!grid.can_step());

    let y = i32::MIN + 1;
    let mut low = grid_of(&[(-1, y), (0, y), (1, y)]);
    assert!(low.can_step());
    low.step();
    assert_eq!(alive(&low), set_of(&[(0, i32::MIN), (0, y), (0, y + 1)]));
    assert!(!low.can_step());
}
