use minesweeper_solver::{propagate, random_grid, try_to_solve, MINE, UNKNOWN};

fn mines_around(grid: &[u8], width: usize, height: usize, x: usize, y: usize) -> u8 {
    let mut n = 0;
    for dy in -1i64..=1 {
        for dx in -1i64..=1 {
            if dx == 0 && dy == 0 {
                continue;
            }
            let nx = x as i64 + dx;
            let ny = y as i64 + dy;
            if nx >= 0 && ny >= 0 && (nx as usize) < width && (ny as usize) < height {
                if grid[ny as usize * width + nx as usize] == MINE {
                    n += 1;
                }
            }
        }
    }
    n
}

fn is_sound(grid: &[u8], width: usize, height: usize) -> bool {
    for y in 0..height {
        for x in 0..width {
            let c = grid[y * width + x];
            if c == UNKNOWN {
                return false;
            }
            if c < UNKNOWN && mines_around(grid, width, height, x, y) != c {
                return false;
            }
        }
    }
    true
}

#[test]
fn lone_zero_clue_clears_its_neighbor() {
    assert_eq!(try_to_solve(&[0, 9], 1, 2), Some(vec![0, 0]));
}

#[test]
fn lone_one_clue_marks_its_neighbor() {
    assert_eq!(try_to_solve(&[1, 9], 1, 2), Some(vec![1, 10]));
}

#[test]
fn clue_without_neighbors_fails() {
    assert_eq!(try_to_solve(&[1], 1, 1), None);
}

#[test]
fn no_clue_leaves_cells_hidden() {
    assert_eq!(try_to_solve(&[9, 9], 2, 1), None);
}

#[test]
fn already_solved_board_is_returned() {
    assert_eq!(try_to_solve(&[0, 0], 1, 2), Some(vec![0, 0]));
}

#[test]
fn wrong_length_is_rejected() {
    assert_eq!(try_to_solve(&[0, 0, 0], 1, 2), None);
    assert_eq!(try_to_solve(&[0], 2, 2), None);
    assert_eq!(try_to_solve(&[0, 0], usize::MAX, 2), None);
}

#[test]
fn empty_board_is_solved() {
    assert_eq!(try_to_solve(&[], 0, 0), Some(vec![]));
}

#[test]
fn contradicted_clue_fails() {
    assert_eq!(try_to_solve(&[2, 10], 1, 2), None);
    assert_eq!(try_to_solve(&[0, 10], 2, 1), None);
}

#[test]
fn cleared_cell_acts_as_zero_clue_in_the_same_round() {
    let mut g = vec![0, 9, 9];
    assert_eq!(propagate(&mut g, 3, 1), 2);
    assert_eq!(g, vec![0, 0, 0]);
    assert_eq!(try_to_solve(&[0, 9, 9], 3, 1), Some(vec![0, 0, 0]));
}

#[test]
fn rounds_reach_the_number_of_cells() {
    let mut g = vec![9, 9, 0];
    assert_eq!(propagate(&mut g, 3, 1), 3);
    assert_eq!(g, vec![0, 0, 0]);
}

#[test]
fn solved_board_takes_one_round() {
    let solved = vec![1, 10, 1, 1, 1, 1];
    let mut g = solved.clone();
    assert_eq!(propagate(&mut g, 3, 2), 1);
    assert_eq!(g, solved);
}

#[test]
fn solved_board_is_unchanged() {
    let board = vec![1, 1, 1, 1, 10, 1, 1, 1, 1];
    assert!(is_sound(&board, 3, 3));
    assert_eq!(try_to_solve(&board, 3, 3), Some(board.clone()));
}

#[test]
fn forced_mines_around_a_corner() {
    // The 3 in the corner needs all three of its hidden neighbours to be mines.
    let board = vec![3, 9, 9, 9];
    assert_eq!(try_to_solve(&board, 2, 2), Some(vec![3, 10, 10, 10]));
}

#[test]
fn unresolvable_board_fails() {
    // Two hidden cells and one clue needing one mine: no rule decides.
    assert_eq!(try_to_solve(&[9, 1, 9], 3, 1), None);
}

#[test]
fn solving_is_deterministic() {
    for w in 1..=6 {
        for h in 1..=6 {
            let g = random_grid(w, h);
            assert_eq!(try_to_solve(&g, w, h), try_to_solve(&g, w, h));
        }
    }
}

#[test]
fn solutions_are_sound() {
    for w in 1..=10 {
        for h in 1..=10 {
            for _ in 0..8 {
                let g = random_grid(w, h);
                if let Some(s) = try_to_solve(&g, w, h) {
                    assert_eq!(s.len(), w * h);
                    assert!(is_sound(&s, w, h));
                }
                let mut p = g.clone();
                let rounds = propagate(&mut p, w, h);
                assert!(rounds >= 1 && rounds <= w * h);
            }
        }
    }
}

#[test]
fn random_grid_holds_digits() {
    let g = random_grid(7, 3);
    assert_eq!(g.len(), 21);
    assert!(g.iter().all(|&d| d < 10));
    assert!(random_grid(0, 5).is_empty());
}
