use tgames::flappy_bird_gm::manager::FlappyBirdGameManager;
use tgames::g2048_gm::manager::G2048GameManager;
use tgames::game_manager::{confirmation_guide, GameState};
use tgames::minesweeper_gm::manager::MinesweeperGameManager;
use tgames::snake_gm::manager::{MenuOpt, SnakeGameManager};
use tgames::tetris_gm::manager::TetrisGameManager;
use tgames::Games;

#[test]
fn force_quit_ends_every_manager_within_one_step() {
    let mut snake = SnakeGameManager::new();
    snake.force_quit();
    snake.update();
    assert!(snake.ended());
    assert!(snake.kill_execution());

    let mut tetris = TetrisGameManager::new();
    tetris.force_quit();
    tetris.update();
    assert!(tetris.ended());
    assert!(tetris.kill_execution());

    let mut mines = MinesweeperGameManager::new();
    mines.force_quit();
    mines.update();
    assert!(mines.ended());
    assert!(mines.kill_execution());

    let mut flappy = FlappyBirdGameManager::new();
    flappy.force_quit();
    flappy.update();
    assert!(flappy.ended());
    assert!(flappy.kill_execution());

    let mut g2048 = G2048GameManager::new();
    g2048.force_quit();
    g2048.update();
    assert!(g2048.ended());
    assert!(g2048.kill_execution());
}

#[test]
fn force_quit_ends_a_session_from_deep_play() {
    let mut snake = SnakeGameManager::new();
    snake.update();
    assert_eq!(snake.consult_state(), GameState::Playing);
    snake.update();
    snake.force_quit();
    snake.update();
    assert!(snake.ended());
}

#[test]
fn cancel_in_menu_quits_and_the_second_cancel_is_absorbed() {
    let mut snake = SnakeGameManager::new();
    // Reach the menu: play, ask to quit, confirm.
    snake.update();
    assert_eq!(snake.consult_state(), GameState::Playing);
    snake.set_menu_option(MenuOpt::Quit);
    snake.update();
    assert_eq!(snake.consult_state(), GameState::AskingToQuit);
    snake.set_confirmation(true);
    snake.update();
    assert_eq!(snake.consult_state(), GameState::Menu);
    // The first cancel reaches the terminal state.
    snake.set_menu_option(MenuOpt::Quit);
    snake.update();
    assert!(snake.ended());
    let record = snake.consult_record();
    let fps = snake.consult_fps();
    // The second cancel is a no-op: the terminal state absorbs it.
    snake.update();
    assert!(snake.ended());
    assert_eq!(snake.consult_record(), record);
    assert_eq!(snake.consult_fps(), fps);
    assert!(!snake.kill_execution());
}

#[test]
fn declining_the_quit_confirmation_resumes_play() {
    let mut snake = SnakeGameManager::new();
    snake.update();
    snake.set_menu_option(MenuOpt::Quit);
    snake.update();
    assert_eq!(snake.consult_state(), GameState::AskingToQuit);
    snake.set_confirmation(false);
    snake.update();
    assert_eq!(snake.consult_state(), GameState::Playing);
}

#[test]
fn snake_record_follows_the_board_score() {
    let mut snake = SnakeGameManager::new();
    snake.update();
    snake.update();
    assert!(snake.consult_record() >= 1);
}

#[test]
fn games_list_their_names_and_indices() {
    assert_eq!(Games::count(), 5);
    assert_eq!(Games::from_index(0), Some(Games::Snake));
    assert_eq!(Games::from_index(4), Some(Games::G2048));
    assert_eq!(Games::from_index(5), None);
    assert_eq!(Games::Snake.name(), "Snake");
    assert_eq!(Games::G2048.name(), "2048");
    assert_eq!(Games::FlappyBird.name(), "Flappy bird");
}

#[test]
fn confirmation_guide_names_both_answers() {
    let guide = confirmation_guide();
    assert!(guide.contains("confirm"));
    assert!(guide.contains("go back"));
}
