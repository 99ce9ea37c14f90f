use sudoku_reduce::candidate::Sp;
use sudoku_reduce::grid::{build_sp, reduce_sp, solve};

/// The puzzle used for manual inspection: partially filled, digits 0..9.
fn test_sudoku() -> [[u8; 9]; 9] {
    [
        [0, 6, 0, 0, 2, 7, 4, 0, 0],
        [0, 0, 0, 8, 0, 4, 0, 0, 0],
        [4, 0, 0, 3, 9, 0, 0, 7, 0],
        [8, 7, 9, 0, 6, 0, 0, 0, 3],
        [5, 0, 0, 0, 0, 8, 0, 0, 7],
        [0, 2, 6, 7, 0, 5, 0, 4, 0],
        [0, 0, 1, 5, 0, 0, 7, 0, 0],
        [0, 0, 3, 0, 7, 0, 8, 9, 4],
        [0, 8, 0, 2, 0, 3, 0, 6, 1],
    ]
}

/// A completed, valid grid: every row, column, and box holds 1..9 once.
fn solved_grid() -> [[u8; 9]; 9] {
    [
        [1, 2, 3, 4, 5, 6, 7, 8, 9],
        [4, 5, 6, 7, 8, 9, 1, 2, 3],
        [7, 8, 9, 1, 2, 3, 4, 5, 6],
        [2, 3, 4, 5, 6, 7, 8, 9, 1],
        [5, 6, 7, 8, 9, 1, 2, 3, 4],
        [8, 9, 1, 2, 3, 4, 5, 6, 7],
        [3, 4, 5, 6, 7, 8, 9, 1, 2],
        [6, 7, 8, 9, 1, 2, 3, 4, 5],
        [9, 1, 2, 3, 4, 5, 6, 7, 8],
    ]
}

fn print_grid(grid_sp: &[[Sp; 9]; 9]) {
    println!();
    for row in grid_sp.iter() {
        let cells: Vec<String> = row.iter().map(|sp| sp.display()).collect();
        println!("{:?}", cells.join(" , "));
    }
}

#[test]
fn test_build_grid_sp() {
    let grid_sp = build_sp(&test_sudoku());
    print_grid(&grid_sp);
}

#[test]
fn test_solve() {
    let mut initial_grid = test_sudoku();
    let grid_sp = solve(&mut initial_grid);
    print_grid(&grid_sp);
    assert_eq!(initial_grid, test_sudoku());
}

// An all-zero grid builds to a grid whose every cell still allows everything.
#[test]
fn test_build_all_zero_renders_any() {
    let grid_sp = build_sp(&[[0u8; 9]; 9]);
    for i in 0..9 {
        for j in 0..9 {
            assert_eq!(grid_sp[i][j].display(), "any");
        }
    }
}

// A fully filled valid grid builds to singletons that render as their digit
// and survive any number of elimination rounds unchanged.
#[test]
fn test_build_full_grid_is_fixed() {
    let solution = solved_grid();
    let built = build_sp(&solution);
    for i in 0..9 {
        for j in 0..9 {
            assert_eq!(built[i][j].display(), solution[i][j].to_string());
        }
    }
    let once = reduce_sp(&built);
    let mut grid = solution;
    let after_ten = solve(&mut grid);
    for i in 0..9 {
        for j in 0..9 {
            assert_eq!(once[i][j].display(), solution[i][j].to_string());
            assert_eq!(after_ten[i][j].display(), solution[i][j].to_string());
        }
    }
}

// One round of elimination never sets a flag that was clear before it.
#[test]
fn test_reduce_only_clears_flags() {
    let before = build_sp(&test_sudoku());
    let after = reduce_sp(&before);
    for i in 0..9 {
        for j in 0..9 {
            for d in 0..9 {
                if after[i][j].states[d] {
                    assert!(before[i][j].states[d]);
                }
            }
        }
    }
}

// Cells the puzzle fixes stay collapsed to their digit through a round.
#[test]
fn test_fixed_cells_survive_a_round() {
    let puzzle = test_sudoku();
    let after = reduce_sp(&build_sp(&puzzle));
    for i in 0..9 {
        for j in 0..9 {
            if puzzle[i][j] != 0 {
                assert_eq!(after[i][j].try_collapse(), Some(puzzle[i][j]));
            }
        }
    }
}

// A puzzle that plain single-peer elimination settles: each blanked cell sees
// the eight other digits of its row at once, so ten rounds collapse every
// cell to the unique solution.
#[test]
fn test_solve_converges_on_easy_puzzle() {
    let solution = solved_grid();
    let mut puzzle = solution;
    puzzle[0][0] = 0;
    puzzle[1][4] = 0;
    puzzle[4][8] = 0;
    puzzle[8][3] = 0;
    let out = solve(&mut puzzle);
    for i in 0..9 {
        for j in 0..9 {
            assert_eq!(out[i][j].try_collapse(), Some(solution[i][j]));
        }
    }
}

// A puzzle far too sparse for single-peer elimination: cells that share no
// group with a clue keep all nine candidates after the ten rounds. That is
// the expected behavior, not a failure of the pass.
#[test]
fn test_solve_leaves_hard_puzzle_open() {
    let mut puzzle = [[0u8; 9]; 9];
    puzzle[0][0] = 1;
    puzzle[8][8] = 9;
    let out = solve(&mut puzzle);
    assert_eq!(out[0][0].try_collapse(), Some(1));
    assert_eq!(out[8][8].try_collapse(), Some(9));
    assert_eq!(out[4][4].display(), "any");
    assert_eq!(out[0][1].display(), "2,3,4,5,6,7,8,9");
    assert_eq!(out[0][8].display(), "2,3,4,5,6,7,8");
}
