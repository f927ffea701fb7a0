use tgames::flappy_bird_gm::board::Board;

#[test]
fn flappy_new_board_is_alive_with_full_queue() {
    let board = Board::new();
    assert!(!board.lost());
    assert_eq!(board.consult_score(), 0);
    assert_eq!(board.number_of_holes(), 10);
    assert_eq!(board.consult_bird_height(), 10);
}

#[test]
fn flappy_hole_queue_length_never_changes() {
    let mut board = Board::new();
    for _ in 0..500 {
        if board.lost() {
            break;
        }
        // Chase the nearest hole: jump when below its center.
        let jump = board.consult_bird_height() < board.consult_next_hole();
        board.advance(jump);
        assert_eq!(board.number_of_holes(), 10);
    }
}

#[test]
fn flappy_score_counts_passed_pipes() {
    let mut board = Board::new();
    let mut last_score = 0;
    for _ in 0..200 {
        if board.lost() {
            break;
        }
        let jump = board.consult_bird_height() < board.consult_next_hole();
        board.advance(jump);
        let score = board.consult_score();
        assert!(score == last_score || score == last_score + 1);
        last_score = score;
    }
}

#[test]
fn flappy_reset_restores_the_start() {
    let mut board = Board::new();
    for _ in 0..30 {
        if board.lost() {
            break;
        }
        board.advance(true);
    }
    board.reset_board();
    assert!(!board.lost());
    assert_eq!(board.consult_score(), 0);
    assert_eq!(board.number_of_holes(), 10);
}
