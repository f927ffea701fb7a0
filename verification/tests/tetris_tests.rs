use tgames::tetris_gm::board::{Board, BoardPossibilities};
use tgames::tetris_gm::bricks::Brick;

fn fill_bottom_rows(board: &mut Board, rows: usize) {
    for delta in 0..rows {
        let line = 19 - delta;
        for column in 0..10 {
            board.place_square(line, column, BoardPossibilities::Red);
        }
    }
}

fn drop_until_lock(board: &mut Board) {
    for _ in 0..30 {
        if board.consult_lines_completed() > 0 {
            return;
        }
        board.drop();
    }
}

#[test]
fn tetris_new_board_is_clean() {
    let board = Board::new();
    assert_eq!(board.consult_score(), 0);
    assert_eq!(board.consult_lines_completed(), 0);
    assert!(!board.defeated());
}

#[test]
fn tetris_one_cleared_row_scores_three_hundred() {
    let mut board = Board::new();
    fill_bottom_rows(&mut board, 1);
    drop_until_lock(&mut board);
    assert_eq!(board.consult_lines_completed(), 1);
    assert_eq!(board.consult_score(), 300);
}

#[test]
fn tetris_two_cleared_rows_score_eight_hundred() {
    let mut board = Board::new();
    fill_bottom_rows(&mut board, 2);
    drop_until_lock(&mut board);
    assert_eq!(board.consult_lines_completed(), 2);
    assert_eq!(board.consult_score(), 800);
}

#[test]
fn tetris_three_cleared_rows_score_two_thousand() {
    let mut board = Board::new();
    fill_bottom_rows(&mut board, 3);
    drop_until_lock(&mut board);
    assert_eq!(board.consult_lines_completed(), 3);
    assert_eq!(board.consult_score(), 2000);
}

#[test]
fn tetris_four_cleared_rows_score_five_thousand() {
    let mut board = Board::new();
    fill_bottom_rows(&mut board, 4);
    drop_until_lock(&mut board);
    assert_eq!(board.consult_lines_completed(), 4);
    assert_eq!(board.consult_score(), 5000);
}

#[test]
fn tetris_hard_drop_awards_two_points_per_line() {
    let mut board = Board::new();
    let before = board.consult_score();
    board.hard_drop();
    let after = board.consult_score();
    assert!(after >= before);
    assert_eq!((after - before) % 2, 0);
}

#[test]
fn tetris_brick_shapes_draw_in_the_top_two_rows() {
    // The horizontal bar occupies all of its second row.
    let bar = Brick::from_kind(0);
    assert!(bar.consult(1, 0));
    assert!(bar.consult(1, 1));
    assert!(bar.consult(1, 2));
    assert!(bar.consult(1, 3));
    assert!(!bar.consult(0, 0));
    // The square occupies a two by two block.
    let square = Brick::from_kind(3);
    assert!(square.consult(0, 1));
    assert!(square.consult(0, 2));
    assert!(square.consult(1, 1));
    assert!(square.consult(1, 2));
}

#[test]
fn tetris_rotating_four_times_returns_the_piece() {
    let mut brick = Brick::from_kind(1);
    let mut cells_before = Vec::new();
    for line in 0..4 {
        for column in 0..4 {
            cells_before.push(brick.consult(line, column));
        }
    }
    for _ in 0..4 {
        brick.rotate();
    }
    let mut cells_after = Vec::new();
    for line in 0..4 {
        for column in 0..4 {
            cells_after.push(brick.consult(line, column));
        }
    }
    assert_eq!(cells_before, cells_after);
}

#[test]
fn tetris_occupied_top_row_loses_at_the_next_lock() {
    let mut board = Board::new();
    board.place_square(0, 0, BoardPossibilities::Red);
    for _ in 0..30 {
        if board.defeated() {
            break;
        }
        board.drop();
    }
    assert!(board.defeated());
}

#[test]
fn tetris_undoing_a_rotation_restores_the_index() {
    // the bar has two rotations: stepping back from its base rotation
    // must land on the other one, not on an index it cannot reach
    let mut bar = Brick::from_kind(0);
    bar.rotate();
    bar.unrotate();
    assert!(bar.consult(1, 0) && bar.consult(1, 1) && bar.consult(1, 2) && bar.consult(1, 3));
    let mut square = Brick::from_kind(3);
    square.rotate();
    square.unrotate();
    assert!(square.consult(0, 1) && square.consult(0, 2));
    assert!(square.consult(1, 1) && square.consult(1, 2));
}
