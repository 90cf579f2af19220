use tictactoe::game::{Game, TurnError};
use tictactoe::input::{BufferedInput, UserInput};

/// Feeds a game the given lines, one command per turn, the way the
/// interactive loop does: stop once the game is over, retry on anything
/// unparseable.
fn run(turns: &str) -> Game {
    let mut game = Game::new();
    let mut input = BufferedInput::new(String::from(turns));
    while game.ongoing() {
        if let Some(cmd) = input.read() {
            game.turn(&cmd);
        }
    }
    game
}

#[test]
fn game_test_new_game() {
    let game = Game::new();

    assert!(game.ongoing());
    assert!(game.first_player_turn());
}

#[test]
fn test_stopped_early() {
    let game = run("0,0\n1,1\n2,2\ns");

    assert_eq!(game.status_string(), String::from("stopped early."));
    assert_eq!(game.positions(true), vec![(0, 0), (2, 2)]);
    assert_eq!(game.positions(false), vec![(1, 1)]);
}

#[test]
fn test_tie() {
    let game = run(
        "0,0\n0,1\n0,2\n\
         1,1\n1,0\n2,0\n\
         1,2\n2,2\n2,1\n",
    );

    assert_eq!(game.status_string(), String::from("it is a tie!"));
}

#[test]
fn test_the_first_player_wins() {
    let game = run("0,0\n1,0\n0,1\n1,1\n0,2\n");

    assert_eq!(game.status_string(), String::from("the player X wins!"));
}

#[test]
fn test_the_second_player_wins() {
    let game = run("1,0\n0,0\n1,1\n0,1\n2,2\n0,2\n");

    assert_eq!(game.status_string(), String::from("the player O wins!"));
}

#[test]
fn test_no_turns() {
    let game = run("s");

    assert_eq!(game.positions(true), vec![]);
    assert_eq!(game.positions(false), vec![]);
}

#[test]
fn test_rejected_turns_do_not_advance_the_player() {
    // an out-of-range position, then an occupied cell: the same player stays
    // on and finally moves
    let game = run("0,0\n5,5\n0,0\n1,1\ns");

    assert_eq!(game.positions(true), vec![(0, 0)]);
    assert_eq!(game.positions(false), vec![(1, 1)]);
}

#[test]
fn test_unparseable_lines_do_not_advance_the_player() {
    let game = run("0,0\nnonsense\n\n1.1\n1,1\ns");

    assert_eq!(game.positions(true), vec![(0, 0)]);
    assert_eq!(game.positions(false), vec![(1, 1)]);
}

#[test]
fn test_valid_turn_reports_why_a_turn_is_refused() {
    let mut game = Game::new();

    assert_eq!(game.valid_turn(&(3, 0)), Err(TurnError::OutOfBounds));
    assert_eq!(game.valid_turn(&(0, 3)), Err(TurnError::OutOfBounds));
    assert_eq!(game.valid_turn(&(15, 25)), Err(TurnError::OutOfBounds));
    assert_eq!(game.valid_turn(&(1, 1)), Ok(()));

    game.turn(&tictactoe::input::Command::Turn((1, 1)));

    assert_eq!(game.valid_turn(&(1, 1)), Err(TurnError::CellOccupied));
}

#[test]
fn test_top_row_win_scenario() {
    // the five turns (0,0)F (1,0)S (0,1)F (1,1)S (0,2)F complete the top row
    let game = run("0,0\n1,0\n0,1\n1,1\n0,2\n");

    assert!(!game.ongoing());
    assert_eq!(game.positions(true), vec![(0, 0), (0, 1), (0, 2)]);
    assert_eq!(game.positions(false), vec![(1, 0), (1, 1)]);
}
