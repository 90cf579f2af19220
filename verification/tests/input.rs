use tictactoe::input::{parse, BufferedInput, Command, UserInput};

fn strings(vec: Vec<&str>) -> Vec<String> {
    vec.into_iter().map(String::from).collect()
}

#[test]
fn test_parsing_valid_command() {
    let valid_turns = strings(vec!["1,2\n", "0,0\n", "stop", "s"]);

    let parsed_commands: Vec<Command> = valid_turns.iter().map(parse).flatten().collect();

    assert_eq!(parsed_commands.len(), valid_turns.len());
}

#[test]
fn test_parsing_invalid_input_into_none() {
    let invalid_values = strings(vec!["1.2", "1,1,1", "0", "x"]);

    let parsed_commands: Vec<Command> = invalid_values.iter().map(parse).flatten().collect();

    assert_eq!(parsed_commands.len(), 0);
}

#[test]
fn test_reading_from_buffer() {
    let expected = String::from("abc");
    let mut keyboard = BufferedInput::new(expected.clone());

    let result = keyboard.read_from_buffer();

    assert_eq!(result, Some(expected));
}

#[test]
fn test_reading_command() {
    let mut keyboard = BufferedInput::new(String::from("0,1\n"));

    let command = keyboard.read();

    assert!(matches!(command, Some(Command::Turn((0, 1)))));
}

#[test]
fn test_reading_line_by_line() {
    let mut keyboard = BufferedInput::new(String::from("1,2\nnonsense\ns"));

    assert!(matches!(keyboard.read(), Some(Command::Turn((1, 2)))));
    assert!(matches!(keyboard.read(), None));
    assert!(matches!(keyboard.read(), Some(Command::Stop)));
    assert!(matches!(keyboard.read(), None));
}
