use tictactoe::game::Game;
use tictactoe::input::{parse, Command};

#[test]
fn interactive_test_new_game() {
    let game = Game::new();

    assert_eq!(game.ongoing(), true);
}

#[test]
fn test_parsing_coordinate_command_one_digit() {
    let buf = String::from("1,2\n");

    let cmd = parse(&buf);

    assert!(matches!(cmd, Some(Command::Turn((1, 2)))));
}

#[test]
fn test_parsing_coordinate_command_two_digits() {
    let buf = String::from("15,25\n");

    let cmd = parse(&buf);

    assert!(matches!(cmd, Some(Command::Turn((15, 25)))));
}

#[test]
fn test_parsing_stop() {
    let buf = String::from("s");

    let cmd = parse(&buf);

    assert!(matches!(cmd, Some(Command::Stop)));
}

#[test]
fn test_parsing_invalid_command() {
    let buf = String::from("unknown");

    let cmd = parse(&buf);

    assert!(matches!(cmd, None));
}

#[test]
fn test_parsing_oversized_coordinate_is_rejected() {
    let buf = String::from("99999999999999999999999999,1\n");

    let cmd = parse(&buf);

    assert!(matches!(cmd, None));
}

#[test]
fn test_parsing_needs_the_line_terminator() {
    let buf = String::from("1,2");

    let cmd = parse(&buf);

    assert!(matches!(cmd, None));
}
