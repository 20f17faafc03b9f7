use minesweeper::board::{Board, ConfigError, RevealOutcome, TileState, TileValue};
use minesweeper::layout::{debug_layout, nth_free, random_layout};
use minesweeper::menu::{Difficulty, Size};

fn board_with_mines(width: usize, height: usize, mines: &[(usize, usize)]) -> Board {
    let mut layout = vec![false; width * height];
    for &(x, y) in mines {
        layout[x * height + y] = true;
    }
    let mut board = Board::with_config(width, height, mines.len()).unwrap();
    board.populate(&layout);
    board
}

fn uncovered(board: &Board) -> usize {
    let mut n = 0;
    for x in 0..board.width() {
        for y in 0..board.height() {
            if board.state_at(x, y) == TileState::Uncovered {
                n += 1;
            }
        }
    }
    n
}

fn mine_total(board: &Board) -> usize {
    let mut n = 0;
    for x in 0..board.width() {
        for y in 0..board.height() {
            if board.value_at(x, y) == TileValue::Bomb {
                n += 1;
            }
        }
    }
    n
}

fn neighbours_mined(board: &Board, x: usize, y: usize) -> u8 {
    let mut n = 0;
    for dx in -1i64..=1 {
        for dy in -1i64..=1 {
            let (nx, ny) = (x as i64 + dx, y as i64 + dy);
            if (dx, dy) != (0, 0)
                && nx >= 0
                && ny >= 0
                && (nx as usize) < board.width()
                && (ny as usize) < board.height()
                && board.value_at(nx as usize, ny as usize) == TileValue::Bomb
            {
                n += 1;
            }
        }
    }
    n
}

fn assert_counts_consistent(board: &Board) {
    assert_eq!(mine_total(board), board.mines());
    for x in 0..board.width() {
        for y in 0..board.height() {
            let n = neighbours_mined(board, x, y);
            match board.value_at(x, y) {
                TileValue::Bomb => {},
                TileValue::Empty => assert_eq!(n, 0),
                TileValue::Neighbours(k) => {
                    assert_eq!(k, n);
                    assert!(k >= 1 && k <= 8);
                },
            }
        }
    }
}

#[test]
fn single_central_mine_reveals_only_the_corner() {
    let mut board = board_with_mines(3, 3, &[(1, 1)]);
    for x in 0..3 {
        for y in 0..3 {
            let expected = if (x, y) == (1, 1) { TileValue::Bomb } else { TileValue::Neighbours(1) };
            assert_eq!(board.value_at(x, y), expected);
        }
    }
    assert_eq!(board.uncover(0, 0), RevealOutcome::Single);
    assert_eq!(board.state_at(0, 0), TileState::Uncovered);
    assert_eq!(uncovered(&board), 1);
}

#[test]
fn empty_cell_floods_to_the_numbers() {
    let mut board = board_with_mines(5, 5, &[(4, 4)]);
    assert_eq!(board.value_at(3, 3), TileValue::Neighbours(1));
    assert_eq!(board.value_at(0, 0), TileValue::Empty);
    assert_eq!(board.uncover(0, 0), RevealOutcome::Cascade);
    assert_eq!(uncovered(&board), 24);
    assert_eq!(board.state_at(4, 4), TileState::Covered);
    assert!(board.is_won());
}

#[test]
fn flood_stops_at_a_wall_of_numbers() {
    // A column of mines at x = 2 splits the board in two.
    let mut board = board_with_mines(5, 3, &[(2, 0), (2, 1), (2, 2)]);
    assert_eq!(board.uncover(0, 1), RevealOutcome::Cascade);
    for y in 0..3 {
        assert_eq!(board.state_at(0, y), TileState::Uncovered);
        assert_eq!(board.state_at(1, y), TileState::Uncovered);
        assert_eq!(board.state_at(2, y), TileState::Covered);
        assert_eq!(board.state_at(3, y), TileState::Covered);
        assert_eq!(board.state_at(4, y), TileState::Covered);
    }
    assert!(!board.is_won());
    assert_eq!(board.uncover(4, 0), RevealOutcome::Cascade);
    assert_eq!(uncovered(&board), 12);
    assert!(board.is_won());
}

#[test]
fn flood_skips_flagged_cells() {
    let mut board = board_with_mines(4, 4, &[(3, 3)]);
    board.toggle_flag(0, 3);
    assert_eq!(board.uncover(0, 0), RevealOutcome::Cascade);
    assert_eq!(board.state_at(0, 3), TileState::Flagged);
    assert_eq!(uncovered(&board), 14);
    assert!(!board.is_won());
}

#[test]
fn uncovering_twice_changes_nothing() {
    let mut board = board_with_mines(3, 3, &[(1, 1)]);
    assert_eq!(board.uncover(2, 2), RevealOutcome::Single);
    assert_eq!(board.uncover(2, 2), RevealOutcome::Ignored);
    assert_eq!(uncovered(&board), 1);
}

#[test]
fn uncovering_a_mine_loses() {
    let mut board = board_with_mines(3, 3, &[(1, 1)]);
    assert_eq!(board.uncover(1, 1), RevealOutcome::Lost);
    assert_eq!(board.state_at(1, 1), TileState::Uncovered);
}

#[test]
fn flagged_cell_is_not_uncovered() {
    let mut board = board_with_mines(3, 3, &[(1, 1)]);
    board.toggle_flag(0, 0);
    assert_eq!(board.left_click(0, 0), RevealOutcome::Ignored);
    assert_eq!(board.state_at(0, 0), TileState::Flagged);
}

#[test]
fn chord_uncovers_neighbours_when_flags_match() {
    let mut board = board_with_mines(3, 3, &[(1, 1)]);
    assert_eq!(board.left_click(0, 0), RevealOutcome::Single);
    // No flag yet: nothing happens.
    assert_eq!(board.left_click(0, 0), RevealOutcome::Ignored);
    board.toggle_flag(1, 1);
    assert_eq!(board.left_click(0, 0), RevealOutcome::Cascade);
    assert_eq!(board.state_at(1, 0), TileState::Uncovered);
    assert_eq!(board.state_at(0, 1), TileState::Uncovered);
    assert_eq!(board.state_at(1, 1), TileState::Flagged);
    assert_eq!(board.state_at(2, 2), TileState::Covered);
    assert_eq!(uncovered(&board), 3);
}

#[test]
fn chord_with_a_wrong_flag_loses() {
    let mut board = board_with_mines(3, 3, &[(1, 1)]);
    assert_eq!(board.uncover(0, 0), RevealOutcome::Single);
    board.toggle_flag(0, 1);
    assert_eq!(board.chord(0, 0), RevealOutcome::Lost);
    assert_eq!(board.state_at(1, 1), TileState::Uncovered);
    assert_eq!(board.state_at(0, 1), TileState::Flagged);
}

#[test]
fn chord_cascades_through_empty_neighbours() {
    let mut board = board_with_mines(4, 1, &[(0, 0)]);
    assert_eq!(board.uncover(1, 0), RevealOutcome::Single);
    board.toggle_flag(0, 0);
    assert_eq!(board.chord(1, 0), RevealOutcome::Cascade);
    assert_eq!(board.state_at(2, 0), TileState::Uncovered);
    assert_eq!(board.state_at(3, 0), TileState::Uncovered);
    assert!(board.is_won());
}

#[test]
fn flags_move_the_mine_counter() {
    let mut board = board_with_mines(3, 3, &[(1, 1)]);
    assert_eq!(board.mines_left(), 1);
    board.toggle_flag(0, 0);
    assert_eq!(board.state_at(0, 0), TileState::Flagged);
    assert_eq!(board.mines_left(), 0);
    board.toggle_flag(2, 2);
    assert_eq!(board.mines_left(), -1);
    board.toggle_flag(0, 0);
    assert_eq!(board.state_at(0, 0), TileState::Covered);
    assert_eq!(board.mines_left(), 0);
    board.uncover(0, 1);
    board.toggle_flag(0, 1);
    assert_eq!(board.state_at(0, 1), TileState::Uncovered);
    assert_eq!(board.mines_left(), 0);
}

#[test]
fn win_comes_with_the_last_safe_cell() {
    let mut board = board_with_mines(2, 2, &[(0, 0)]);
    assert!(!board.is_won());
    board.uncover(1, 0);
    assert!(!board.is_won());
    board.uncover(0, 1);
    assert!(!board.is_won());
    board.uncover(1, 1);
    assert_eq!(uncovered(&board), 2 * 2 - 1);
    assert!(board.is_won());
}

#[test]
fn board_without_mines_is_won_after_one_click() {
    let mut board = board_with_mines(3, 2, &[]);
    assert_eq!(board.uncover(2, 1), RevealOutcome::Cascade);
    assert_eq!(uncovered(&board), 6);
    assert!(board.is_won());
}

#[test]
fn full_board_of_mines() {
    let board = board_with_mines(2, 1, &[(0, 0), (1, 0)]);
    assert_eq!(board.mines(), 2);
    assert!(board.is_won());
}

#[test]
fn config_errors() {
    assert_eq!(Board::with_config(0, 5, 0).err(), Some(ConfigError::NoCells));
    assert_eq!(Board::with_config(5, 0, 0).err(), Some(ConfigError::NoCells));
    assert_eq!(Board::with_config(usize::MAX, 2, 0).err(), Some(ConfigError::TooLarge));
    assert_eq!(Board::with_config(3, 3, 10).err(), Some(ConfigError::TooManyMines));
    let board = Board::with_config(3, 3, 9).unwrap();
    assert_eq!(board.size(), (3, 3));
    assert_eq!(board.mines(), 9);
}

#[test]
fn random_boards_have_consistent_counts() {
    for &(w, h, m) in &[(10usize, 10usize, 20usize), (16, 9, 14), (4, 4, 16), (7, 3, 0), (1, 1, 1)] {
        let mut board = Board::with_config(w, h, m).unwrap();
        board.initialize();
        assert_eq!(board.mines(), m);
        assert_eq!(board.mines_left(), m as isize);
        assert_eq!(uncovered(&board), 0);
        assert_counts_consistent(&board);
    }
}

#[test]
fn random_layout_places_distinct_mines() {
    let layout = random_layout(8, 8, 30);
    assert_eq!(layout.len(), 64);
    assert_eq!(layout.iter().filter(|&&b| b).count(), 30);
    let full = random_layout(3, 2, 6);
    assert!(full.iter().all(|&b| b));
}

#[test]
fn nth_free_skips_mines() {
    let layout = vec![true, false, true, false, false];
    assert_eq!(nth_free(&layout, 0), 1);
    assert_eq!(nth_free(&layout, 1), 3);
    assert_eq!(nth_free(&layout, 2), 4);
}

#[test]
fn debug_board_uses_the_fixed_pattern() {
    let mut board = Board::new(Size::Small, Difficulty::Debug);
    assert!(board.is_debug());
    assert_eq!(board.mines(), 36);
    board.initialize();
    assert_eq!(board.mines(), 36);
    assert_eq!(board.mines_left(), 36);
    assert_counts_consistent(&board);
    // Centre (1, 1) gets no mine; centre (1, 4) gets its first neighbour.
    for x in 0..3 {
        for y in 0..3 {
            assert_ne!(board.value_at(x, y), TileValue::Bomb);
        }
    }
    assert_eq!(board.value_at(0, 3), TileValue::Bomb);
    assert_eq!(board.value_at(1, 3), TileValue::Neighbours(1));
    // Centre (7, 7) is surrounded by all eight.
    assert_eq!(board.value_at(7, 7), TileValue::Neighbours(8));
    // Nothing beyond the nine by nine corner.
    for x in 9..16 {
        for y in 0..9 {
            assert_ne!(board.value_at(x, y), TileValue::Bomb);
        }
    }
}

#[test]
fn debug_layout_counts_thirty_six() {
    let layout = debug_layout(9, 9);
    assert_eq!(layout.iter().filter(|&&b| b).count(), 36);
    let wide = debug_layout(12, 10);
    assert_eq!(wide.iter().filter(|&&b| b).count(), 36);
}

#[test]
fn menu_board_sizes_and_mines() {
    let board = Board::new(Size::Medium, Difficulty::Hard);
    assert_eq!(board.size(), (32, 18));
    assert_eq!(board.mines(), 32 * 18 / 5);
    assert!(!board.is_debug());
}

#[test]
fn world_lookup() {
    let board = Board::with_config(4, 3, 0).unwrap();
    assert_eq!(board.get_from_world(0, 0), Some((0, 0)));
    assert_eq!(board.get_from_world(3, 2), Some((3, 2)));
    assert_eq!(board.get_from_world(4, 0), None);
    assert_eq!(board.get_from_world(0, 3), None);
}
