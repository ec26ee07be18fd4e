use arcade::game::{pass_score, random_grid, Color, Game, Move, COLS, ROWS};

const PALETTE: [Color; 6] = [
    Color::Blue,
    Color::Green,
    Color::Orange,
    Color::Purple,
    Color::Red,
    Color::White,
];

/// A board with no two equal neighbours: colour (r + 2c) mod 6.
fn quiet_grid() -> Vec<Vec<Color>> {
    (0..ROWS)
        .map(|r| (0..COLS).map(|c| PALETTE[(r + 2 * c) % 6]).collect())
        .collect()
}

fn game_on(grid: Vec<Vec<Color>>) -> Game {
    Game { moves: 0, score: 0, grid }
}

fn all_pairs() -> Vec<Move> {
    let mut moves = Vec::new();
    for r in 0..8 {
        for c in 0..7 {
            moves.push(Move { row1: r, col1: c, row2: r, col2: c + 1 });
        }
    }
    for r in 0..7 {
        for c in 0..8 {
            moves.push(Move { row1: r, col1: c, row2: r + 1, col2: c });
        }
    }
    moves
}

#[test]
fn adjacent_moves_are_valid() {
    assert!(Move { row1: 0, col1: 0, row2: 0, col2: 1 }.is_valid());
    assert!(Move { row1: 3, col1: 4, row2: 2, col2: 4 }.is_valid());
    assert!(Move { row1: 7, col1: 7, row2: 7, col2: 6 }.is_valid());
}

#[test]
fn far_diagonal_and_outside_moves_are_invalid() {
    assert!(!Move { row1: 0, col1: 0, row2: 0, col2: 5 }.is_valid());
    assert!(!Move { row1: 0, col1: 0, row2: 9, col2: 9 }.is_valid());
    assert!(!Move { row1: 0, col1: 0, row2: 1, col2: 1 }.is_valid());
    assert!(!Move { row1: 2, col1: 2, row2: 2, col2: 2 }.is_valid());
    assert!(!Move { row1: 7, col1: 7, row2: 7, col2: 8 }.is_valid());
    assert!(!Move { row1: 8, col1: 0, row2: 7, col2: 0 }.is_valid());
}

#[test]
fn move_space_has_112_pairs() {
    let mut count = 0;
    for r1 in 0..9 {
        for c1 in 0..9 {
            for r2 in 0..9 {
                for c2 in 0..9 {
                    if (Move { row1: r1, col1: c1, row2: r2, col2: c2 }).is_valid() {
                        count += 1;
                    }
                }
            }
        }
    }
    // each unordered pair is counted in both orders
    assert_eq!(count, 2 * 112);
    assert_eq!(all_pairs().len(), 112);
    assert!(all_pairs().iter().all(|m| m.is_valid()));
}

#[test]
fn color_indices() {
    assert_eq!(Color::from_index(0), Color::Blue);
    assert_eq!(Color::from_index(3), Color::Purple);
    assert_eq!(Color::from_index(5), Color::White);
}

#[test]
fn random_grid_is_eight_by_eight() {
    let g = random_grid();
    assert_eq!(g.len(), 8);
    assert!(g.iter().all(|row| row.len() == 8));
}

#[test]
fn new_game_is_stable_and_fresh() {
    for _ in 0..20 {
        let g = Game::new();
        assert_eq!(g.moves(), 0);
        assert_eq!(g.score(), 0);
        assert_eq!(g.grid().len(), 8);
        assert!(g.grid().iter().all(|row| row.len() == 8));
        assert!(g.pieces_to_remove().is_empty());
    }
}

#[test]
fn quiet_board_has_nothing_to_remove() {
    let g = game_on(quiet_grid());
    assert!(g.pieces_to_remove().is_empty());
}

#[test]
fn detection_finds_rows_and_columns_in_row_order() {
    let mut grid = quiet_grid();
    // a vertical run of three in column 6, rows 2 to 4
    for r in 2..5 {
        grid[r][6] = Color::Red;
    }
    // a horizontal run of four in row 1, columns 1 to 4
    for c in 1..5 {
        grid[1][c] = Color::Blue;
    }
    let g = game_on(grid);
    let cells = g.pieces_to_remove();
    assert_eq!(cells, vec![(1, 1), (1, 2), (1, 3), (1, 4), (2, 6), (3, 6), (4, 6)]);
    assert!(cells.windows(2).all(|w| w[0].0 <= w[1].0));
}

#[test]
fn detection_twice_gives_the_same_cells() {
    let mut grid = quiet_grid();
    for c in 3..6 {
        grid[6][c] = Color::White;
    }
    let g = game_on(grid);
    let first = g.pieces_to_remove();
    let second = g.pieces_to_remove();
    assert_eq!(first, second);
    assert_eq!(first, vec![(6, 3), (6, 4), (6, 5)]);
}

#[test]
fn detection_of_an_l_shape_counts_the_corner_once() {
    let mut grid = quiet_grid();
    for c in 0..3 {
        grid[4][c] = Color::Orange;
    }
    grid[5][0] = Color::Orange;
    grid[6][0] = Color::Orange;
    let g = game_on(grid);
    assert_eq!(g.pieces_to_remove(), vec![(4, 0), (4, 1), (4, 2), (5, 0), (6, 0)]);
}

#[test]
fn tiers_of_a_pass() {
    assert_eq!(pass_score(0, true), 0);
    assert_eq!(pass_score(2, false), 0);
    assert_eq!(pass_score(3, true), 10);
    assert_eq!(pass_score(3, false), 15);
    assert_eq!(pass_score(4, true), 20);
    assert_eq!(pass_score(4, false), 25);
    assert_eq!(pass_score(5, true), 30);
    assert_eq!(pass_score(5, false), 35);
    assert_eq!(pass_score(9, true), 30);
    assert_eq!(pass_score(64, false), 35);
}

#[test]
fn run_of_three_in_the_top_row_is_refilled_in_place() {
    let before = {
        let mut grid = quiet_grid();
        for c in 0..3 {
            grid[0][c] = Color::White;
        }
        grid
    };
    let mut g = game_on(before.clone());
    let refills = vec![Color::Blue, Color::Orange, Color::Red];
    let gained = g.clear_pass(true, &refills);
    assert_eq!(gained, 10);
    assert_eq!(g.score, 10);
    assert_eq!(g.moves, 0);
    let mut expected = before;
    expected[0][0] = Color::Blue;
    expected[0][1] = Color::Orange;
    expected[0][2] = Color::Red;
    assert_eq!(g.grid, expected);
    assert_eq!(g.grid, quiet_grid());
}

#[test]
fn run_of_five_scores_thirty_and_shifts_columns() {
    let before = {
        let mut grid = quiet_grid();
        for c in 0..5 {
            grid[5][c] = Color::White;
        }
        grid
    };
    let mut g = game_on(before.clone());
    let refills = vec![Color::Green, Color::Purple, Color::White, Color::Green, Color::Purple];
    let gained = g.clear_pass(true, &refills);
    assert_eq!(gained, 30);
    assert_eq!(g.score, 30);
    for c in 0..8 {
        for r in 0..8 {
            let want = if c < 5 && r == 0 {
                refills[c]
            } else if c < 5 && r <= 5 {
                before[r - 1][c]
            } else {
                before[r][c]
            };
            assert_eq!(g.grid[r][c], want, "cell ({}, {})", r, c);
        }
    }
}

#[test]
fn two_runs_in_one_pass_score_as_six_cells() {
    let mut grid = quiet_grid();
    for c in 0..3 {
        grid[0][c] = Color::White;
    }
    for c in 5..8 {
        grid[7][c] = Color::Blue;
    }
    let mut g = game_on(grid);
    assert_eq!(g.pieces_to_remove().len(), 6);
    let refills = vec![Color::Blue; 6];
    assert_eq!(g.clear_pass(true, &refills), 30);
    assert_eq!(g.score, 30);
}

#[test]
fn run_of_four_and_follow_up_bonus() {
    let mut grid = quiet_grid();
    for c in 2..6 {
        grid[3][c] = Color::Red;
    }
    let mut g = game_on(grid.clone());
    assert_eq!(g.clear_pass(true, &vec![Color::Blue; 4]), 20);
    let mut h = game_on(grid);
    assert_eq!(h.clear_pass(false, &vec![Color::Blue; 4]), 25);

    let mut three = quiet_grid();
    for r in 3..6 {
        three[r][1] = Color::Purple;
    }
    let mut k = game_on(three);
    assert_eq!(k.clear_pass(false, &vec![Color::White; 3]), 15);
}

#[test]
fn vertical_run_falls_by_three() {
    let before = {
        let mut grid = quiet_grid();
        for r in 3..6 {
            grid[r][2] = Color::Green;
        }
        grid
    };
    let mut g = game_on(before.clone());
    let refills = vec![Color::Red, Color::Blue, Color::White];
    assert_eq!(g.clear_pass(true, &refills), 10);
    // rows 0 to 2 of column 2 fall to rows 3 to 5; the cells leave in row
    // order, so the last refill ends on top
    assert_eq!(g.grid[5][2], before[2][2]);
    assert_eq!(g.grid[4][2], before[1][2]);
    assert_eq!(g.grid[3][2], before[0][2]);
    assert_eq!(g.grid[2][2], Color::Red);
    assert_eq!(g.grid[1][2], Color::Blue);
    assert_eq!(g.grid[0][2], Color::White);
    assert_eq!(g.grid[6][2], before[6][2]);
}

#[test]
fn stable_board_pass_changes_nothing() {
    let mut g = game_on(quiet_grid());
    assert_eq!(g.clear_pass(true, &vec![]), 0);
    assert_eq!(g.grid, quiet_grid());
    assert_eq!(g.score, 0);
}

#[test]
fn invalid_moves_change_nothing() {
    let mut g = game_on(quiet_grid());
    g.moves = 4;
    g.score = 70;
    for mov in [
        Move { row1: 0, col1: 0, row2: 0, col2: 5 },
        Move { row1: 0, col1: 0, row2: 9, col2: 9 },
        Move { row1: 1, col1: 1, row2: 2, col2: 2 },
    ] {
        g.make_move(&mov);
        assert_eq!(g.grid, quiet_grid());
        assert_eq!(g.moves, 4);
        assert_eq!(g.score, 70);
    }
}

#[test]
fn non_scoring_move_is_undone_but_counted() {
    let mut g = game_on(quiet_grid());
    g.make_move(&Move { row1: 0, col1: 0, row2: 0, col2: 1 });
    assert_eq!(g.moves(), 1);
    assert_eq!(g.score(), 0);
    assert_eq!(g.grid, quiet_grid());
    g.make_move(&Move { row1: 4, col1: 3, row2: 5, col2: 3 });
    assert_eq!(g.moves(), 2);
    assert_eq!(g.score(), 0);
    assert_eq!(g.grid, quiet_grid());
}

#[test]
fn scoring_move_scores_and_leaves_a_stable_board() {
    for _ in 0..20 {
        let mut grid = quiet_grid();
        grid[0][0] = Color::White;
        grid[0][1] = Color::White;
        grid[1][2] = Color::White;
        let mut g = game_on(grid);
        assert!(g.pieces_to_remove().is_empty());
        g.make_move(&Move { row1: 0, col1: 2, row2: 1, col2: 2 });
        assert_eq!(g.moves(), 1);
        assert!(g.score() >= 10);
        assert!(g.pieces_to_remove().is_empty());
    }
}

#[test]
fn every_move_of_a_played_game_keeps_it_stable() {
    let mut g = Game::new();
    for mov in all_pairs() {
        let before = g.clone();
        g.make_move(&mov);
        assert_eq!(g.moves(), before.moves() + 1);
        assert!(g.score() >= before.score());
        if g.score() == before.score() {
            assert_eq!(g.grid, before.grid);
        }
        assert!(g.pieces_to_remove().is_empty());
    }
}

#[test]
fn clone_is_independent() {
    let g = game_on(quiet_grid());
    let mut h = g.clone();
    h.grid[0][0] = Color::White;
    assert_eq!(g.grid, quiet_grid());
    assert_ne!(h.grid, g.grid);
}

#[test]
fn random_grid_uses_several_colours() {
    let g = random_grid();
    let first = g[0][0];
    assert!(g.iter().flatten().any(|c| *c != first));
}
