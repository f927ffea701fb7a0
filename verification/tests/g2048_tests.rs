use tgames::g2048_gm::board::Board;
use tgames::game_manager::Directions;

fn count_nonzero(board: &Board) -> usize {
    let mut count = 0;
    for line in 0..4 {
        for column in 0..4 {
            if board.consult_board(line, column) != 0 {
                count += 1;
            }
        }
    }
    count
}

#[test]
fn g2048_new_board_spawns_two_tiles() {
    let board = Board::new();
    assert_eq!(board.consult_score(), 0);
    assert_eq!(board.consult_number_of_moves(), 0);
    assert!(!board.defeated());
    assert_eq!(count_nonzero(&board), 2);
    for line in 0..4 {
        for column in 0..4 {
            let value = board.consult_board(line, column);
            assert!(value == 0 || value == 2 || value == 4);
        }
    }
}

#[test]
fn g2048_merge_awards_the_merged_value() {
    // Row [2, 2, 4, 0] slid toward the low end becomes [4, 4, 0, 0]: the
    // pair merges into one doubled tile worth its value in points, and
    // the merged tile does not merge again with the 4 beside it.
    let mut board = Board::new();
    board.reset_board();
    board.place_block(0, 2);
    board.place_block(1, 2);
    board.place_block(2, 4);
    board.move_pieces(&Directions::Left);
    assert_eq!(board.consult_board(0, 0), 4);
    assert_eq!(board.consult_board(0, 1), 4);
    assert_eq!(board.consult_score(), 4);
    assert_eq!(board.consult_number_of_moves(), 1);
    // Two tiles merged into one, and one random tile spawned.
    assert_eq!(count_nonzero(&board), 3);
}

#[test]
fn g2048_no_chain_merge_in_one_move() {
    // Row [2, 2, 4, 4] becomes [4, 8, ...]: each tile merges at most once.
    let mut board = Board::new();
    board.reset_board();
    board.place_block(0, 2);
    board.place_block(1, 2);
    board.place_block(2, 4);
    board.place_block(3, 4);
    board.move_pieces(&Directions::Left);
    assert_eq!(board.consult_board(0, 0), 4);
    assert_eq!(board.consult_board(0, 1), 8);
    assert_eq!(board.consult_score(), 12);
}

#[test]
fn g2048_move_that_changes_nothing_spawns_nothing() {
    let mut board = Board::new();
    board.reset_board();
    board.place_block(0, 2);
    // A lone tile in the top-left corner cannot slide further left or up.
    board.move_pieces(&Directions::Left);
    assert_eq!(board.consult_number_of_moves(), 0);
    assert_eq!(count_nonzero(&board), 1);
    board.move_pieces(&Directions::Up);
    assert_eq!(board.consult_number_of_moves(), 0);
    assert_eq!(count_nonzero(&board), 1);
}

#[test]
fn g2048_slide_compacts_across_gaps() {
    // Row [2, 0, 0, 2] slid left merges across the gap into [4, 0, 0, 0].
    let mut board = Board::new();
    board.reset_board();
    board.place_block(0, 2);
    board.place_block(3, 2);
    board.move_pieces(&Directions::Left);
    assert_eq!(board.consult_board(0, 0), 4);
    assert_eq!(board.consult_score(), 4);
}

#[test]
fn g2048_headroom_holds_on_fresh_boards() {
    let board = Board::new();
    assert!(board.move_headroom());
}

#[test]
fn g2048_move_on_an_alternating_full_board_changes_nothing() {
    let mut board = Board::new();
    board.reset_board();
    for index in 0..16 {
        let line = index / 4;
        let value = if (index + line) % 2 == 0 { 2 } else { 4 };
        board.place_block(index, value);
    }
    board.move_pieces(&Directions::Left);
    board.move_pieces(&Directions::Down);
    assert_eq!(board.consult_number_of_moves(), 0);
    assert!(!board.defeated());
    assert_eq!(board.consult_board(0, 0), 2);
    assert_eq!(board.consult_board(0, 1), 4);
}
