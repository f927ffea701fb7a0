use tgames::game_manager::{Directions, GameState};
use tgames::snake_gm::board::{Board, BoardPossibilities};
use tgames::snake_gm::manager::{MenuOpt, SnakeGameManager};

#[test]
fn snake_new_starts_with_score_one() {
    let board = Board::new(12, 20);
    assert_eq!(board.consult_score(), 1);
    assert_eq!(board.snake_length(), 1);
    assert!(!board.snake_died());
    assert!(!board.won());
}

#[test]
fn snake_head_and_food_are_placed() {
    let board = Board::new(12, 20);
    // The head sits a third of the way in on the middle line; the food
    // sits two thirds of the way in on the same line.
    assert!(matches!(
        board.consult_board(6, 6),
        BoardPossibilities::SnakeHead
    ));
    assert!(matches!(board.consult_board(6, 14), BoardPossibilities::Food));
}

#[test]
fn snake_length_equals_score_after_each_step() {
    let mut board = Board::new(12, 20);
    for _ in 0..5 {
        board.move_snake(&Directions::Right);
        assert!(!board.snake_died());
        assert_eq!(board.consult_score() as usize, board.snake_length());
    }
    assert_eq!(board.consult_score(), 1);
}

#[test]
fn snake_grows_when_eating_food() {
    let mut board = Board::new(12, 20);
    // The head starts at column 6, the food at column 14 on the same line.
    for _ in 0..8 {
        board.move_snake(&Directions::Right);
    }
    assert_eq!(board.consult_score(), 2);
    assert_eq!(board.snake_length(), 2);
    assert!(!board.snake_died());
}

#[test]
fn snake_dies_at_the_wall() {
    let mut board = Board::new(12, 20);
    // The head starts on line 6; seven steps up walk off the grid.
    for _ in 0..7 {
        board.move_snake(&Directions::Up);
    }
    assert!(board.snake_died());
    assert_eq!(board.consult_score(), 1);
    assert_eq!(board.snake_length(), 1);
}

#[test]
fn snake_reset_restores_the_start() {
    let mut board = Board::new(12, 20);
    for _ in 0..3 {
        board.move_snake(&Directions::Down);
    }
    board.reset_board();
    assert_eq!(board.consult_score(), 1);
    assert_eq!(board.snake_length(), 1);
    assert!(!board.snake_died());
    assert!(matches!(
        board.consult_board(6, 6),
        BoardPossibilities::SnakeHead
    ));
}

#[test]
fn snake_cancel_freezes_the_board_for_that_tick() {
    let mut manager = SnakeGameManager::new();
    manager.update();
    assert_eq!(manager.consult_state(), GameState::Playing);
    let head_before = {
        let board = manager.consult_board();
        *board.consult_board(6, 6)
    };
    assert_eq!(head_before, BoardPossibilities::SnakeHead);
    manager.set_menu_option(MenuOpt::Quit);
    manager.update();
    assert_eq!(manager.consult_state(), GameState::AskingToQuit);
    let board = manager.consult_board();
    assert_eq!(*board.consult_board(6, 6), BoardPossibilities::SnakeHead);
    assert_eq!(board.consult_score(), 1);
}
