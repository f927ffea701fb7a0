use tgames::game_manager::{Difficult, Directions};
use tgames::minesweeper_gm::board::{Board, Square};

fn cursor_cell(board: &Board) -> Square {
    let (line, column) = board.consult_cursor();
    *board.consult_position(line, column)
}

fn move_cursor_to_unopened(board: &mut Board) -> bool {
    let height = board.consult_height();
    let width = board.consult_width();
    for _ in 0..height {
        for _ in 0..width {
            if matches!(cursor_cell(board), Square::Close(_) | Square::Bomb) {
                return true;
            }
            board.move_cursor(&Directions::Right);
        }
        board.move_cursor(&Directions::Down);
    }
    false
}

#[test]
fn minesweeper_new_board_is_medium_and_alive() {
    let board = Board::new();
    assert_eq!(board.consult_height(), 16);
    assert_eq!(board.consult_width(), 16);
    assert_eq!(board.bombs(), 40);
    assert!(!board.lost());
    assert!(!board.won());
    // The first flood already opened at least the starting square.
    assert!(board.score() >= 1);
}

#[test]
fn minesweeper_reset_easy_uses_the_small_preset() {
    let mut board = Board::new();
    board.reset(&Difficult::Easy);
    assert_eq!(board.consult_height(), 9);
    assert_eq!(board.consult_width(), 9);
    assert_eq!(board.bombs(), 10);
    assert!(!board.lost());
}

#[test]
fn minesweeper_flood_boundary_shows_positive_counts() {
    // In a fresh board every opened square with no adjacent bomb has all
    // its neighbors opened or counted: the flood ran to a boundary of
    // positive counts.
    let board = Board::new();
    let height = board.consult_height() as i32;
    let width = board.consult_width() as i32;
    for line in 0..height {
        for column in 0..width {
            if matches!(
                *board.consult_position(line as usize, column as usize),
                Square::Opened(0)
            ) {
                for dl in -1i32..=1 {
                    for dc in -1i32..=1 {
                        let nl = line + dl;
                        let nc = column + dc;
                        if nl >= 0 && nc >= 0 && nl < height && nc < width {
                            let neighbor = *board.consult_position(nl as usize, nc as usize);
                            assert!(!matches!(neighbor, Square::Close(_)));
                            assert!(!matches!(neighbor, Square::Bomb));
                        }
                    }
                }
            }
        }
    }
}

#[test]
fn minesweeper_mark_round_trip_restores_the_square() {
    let mut board = Board::new();
    assert!(move_cursor_to_unopened(&mut board));
    let before = cursor_cell(&board);
    let bombs_before = board.bombs();
    board.mark();
    assert_eq!(board.bombs(), bombs_before - 1);
    assert!(matches!(cursor_cell(&board), Square::Marked(_)));
    board.mark();
    assert_eq!(board.bombs(), bombs_before);
    assert!(matches!(cursor_cell(&board), Square::Uncertain(_)));
    board.mark();
    assert_eq!(board.bombs(), bombs_before);
    assert_eq!(cursor_cell(&board), before);
}

#[test]
fn minesweeper_reveal_on_opened_square_changes_nothing() {
    let mut board = Board::new();
    // The starting cursor square was already opened by the first flood.
    let score_before = board.score();
    board.reveal_square();
    assert_eq!(board.score(), score_before);
    assert!(!board.lost());
}

#[test]
fn minesweeper_clear_closes_every_square() {
    let mut board = Board::new();
    board.clear();
    for line in 0..16 {
        for column in 0..16 {
            assert_eq!(*board.consult_position(line, column), Square::Close(0));
        }
    }
}

#[test]
fn minesweeper_cursor_wraps_at_the_edges() {
    let mut board = Board::new();
    board.reset(&Difficult::Easy);
    let (line, column) = board.consult_cursor();
    for _ in 0..9 {
        board.move_cursor(&Directions::Right);
    }
    assert_eq!(board.consult_cursor(), (line, column));
    for _ in 0..9 {
        board.move_cursor(&Directions::Up);
    }
    assert_eq!(board.consult_cursor(), (line, column));
}

#[test]
fn minesweeper_reset_hard_uses_the_wide_preset() {
    let mut board = Board::new();
    board.reset(&Difficult::Hard);
    assert_eq!(board.consult_height(), 16);
    assert_eq!(board.consult_width(), 30);
    assert_eq!(board.bombs(), 100);
    assert!(!board.lost());
}

#[test]
fn minesweeper_reset_easy_hides_exactly_ten_bombs() {
    let mut board = Board::new();
    board.reset(&Difficult::Easy);
    let mut bombs = 0;
    for line in 0..board.consult_height() {
        for column in 0..board.consult_width() {
            if matches!(*board.consult_position(line, column), Square::Bomb) {
                bombs += 1;
            }
        }
    }
    assert_eq!(bombs, 10);
    assert!(!board.cursor_hidden());
}

#[test]
fn minesweeper_clear_hides_the_cursor() {
    let mut board = Board::new();
    board.clear();
    assert!(board.cursor_hidden());
}
