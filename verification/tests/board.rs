use tictactoe::board::{Board, Mark, Status};

#[test]
fn test_empty_board() {
    let empty = Board::new();

    let formatted = empty.render();

    assert_eq!(
        formatted,
        "+---+\n\
         |...|\n\
         |...|\n\
         |...|\n\
         +---+\n"
    );
}

#[test]
fn test_board_from_string() {
    let board = Board::parse("...|.x.|..o").unwrap();

    assert_eq!(board.get((0, 0)), Mark::Empty);
    assert_eq!(board.get((0, 1)), Mark::Empty);
    assert_eq!(board.get((0, 2)), Mark::Empty);
    assert_eq!(board.get((1, 0)), Mark::Empty);
    assert_eq!(board.get((1, 1)), Mark::First);
    assert_eq!(board.get((1, 2)), Mark::Empty);
    assert_eq!(board.get((2, 0)), Mark::Empty);
    assert_eq!(board.get((2, 1)), Mark::Empty);
    assert_eq!(board.get((2, 2)), Mark::Second);
}

#[test]
fn test_board_manually_set() {
    let mut board = Board::new();

    board.set((0, 0), Mark::First);
    board.set((1, 1), Mark::Second);
    board.set((2, 2), Mark::First);

    assert_eq!(
        board.render(),
        "+---+\n\
         |x..|\n\
         |.o.|\n\
         |..x|\n\
         +---+\n"
    );
}

#[test]
fn test_board_fails_to_create_from_invalid_strings() {
    let strings = vec!["......", "x|x|x", "...|xyz|...", "xxx...ooo"];

    let mut results = strings.iter().map(|x| Board::parse(*x));

    assert!(results.all(|r| r.is_err()));
}

#[test]
fn test_board_in_impossible_state() {
    let board = Board::parse("xxx|xxx|xxx").unwrap();

    assert_eq!(board.status(), Status::Impossible);
}

#[test]
fn test_imbalance_is_impossible_whatever_the_lines() {
    // six firsts against two seconds: impossible regardless of any complete
    // line
    let board = Board::parse("xxo|xxo|xx.").unwrap();

    assert_eq!(board.status(), Status::Impossible);
}

#[test]
fn test_round_trip_reconstructs_the_layout() {
    let board = Board::parse("x.o|.x.|o.x").unwrap();

    assert_eq!(
        board.render(),
        "+---+\n\
         |x.o|\n\
         |.x.|\n\
         |o.x|\n\
         +---+\n"
    );
}

#[test]
fn test_parse_rejects_wrong_segment_counts_and_lengths() {
    let strings = vec![
        "",
        "...",
        "...|...",
        "...|...|...|...",
        "....|...|..",
        "...|....|..",
        "...|...|...x",
    ];

    let mut results = strings.iter().map(|x| Board::parse(*x));

    assert!(results.all(|r| r.is_err()));
}

#[test]
fn test_parse_rejects_uppercase_and_foreign_characters() {
    let strings = vec!["X..|...|...", "O..|...|...", "a..|...|...", " ..|...|..."];

    let mut results = strings.iter().map(|x| Board::parse(*x));

    assert!(results.all(|r| r.is_err()));
}

#[test]
fn test_statuses_of_handmade_boards() {
    assert_eq!(Board::parse("...|...|...").unwrap().status(), Status::Ongoing);
    assert_eq!(Board::parse("xxx|oo.|...").unwrap().status(), Status::Winner(true));
    assert_eq!(Board::parse("oo.|xxx|...").unwrap().status(), Status::Winner(true));
    assert_eq!(Board::parse("x.o|x.o|..o").unwrap().status(), Status::Winner(false));
    assert_eq!(Board::parse("xox|oxo|ox.").unwrap().status(), Status::Ongoing);
    assert_eq!(Board::parse("xox|xox|oxo").unwrap().status(), Status::Tie);
    assert_eq!(Board::parse("x.o|.x.|o.x").unwrap().status(), Status::Winner(true));
    assert_eq!(Board::parse("x.o|.o.|o.x").unwrap().status(), Status::Winner(false));
}

#[test]
fn test_parse_wants_exactly_three_segments() {
    // two well-formed segments are not a board, nor are four
    assert!(Board::parse("xxx|ooo").is_err());
    assert!(Board::parse("xxx|ooo|xx.|...").is_err());
}

#[test]
fn test_line_checks() {
    let board = Board::parse("xxx|oo.|..o").unwrap();

    assert_eq!(board.check(0, true), Status::Winner(true));
    assert_eq!(board.check(1, true), Status::Ongoing);
    assert_eq!(board.check(0, false), Status::Ongoing);
    assert_eq!(board.diagonals(), Status::Ongoing);

    let diagonal = Board::parse("o.x|.x.|x..").unwrap();

    assert_eq!(diagonal.diagonals(), Status::Winner(true));
    assert_eq!(diagonal.check(2, false), Status::Ongoing);
}

#[test]
fn test_occupied_positions_in_scan_order() {
    let board = Board::parse("x.o|.x.|o.x").unwrap();

    assert_eq!(board.occupied_positions(true), vec![(0, 0), (1, 1), (2, 2)]);
    assert_eq!(board.occupied_positions(false), vec![(0, 2), (2, 0)]);
}

#[test]
fn test_empty_cell_lookup() {
    let board = Board::parse("x..|.o.|...").unwrap();

    assert!(!board.empty(&(0, 0)));
    assert!(!board.empty(&(1, 1)));
    assert!(board.empty(&(2, 2)));
}

#[test]
fn test_player_names() {
    assert_eq!(tictactoe::board::player_name(true), "X");
    assert_eq!(tictactoe::board::player_name(false), "O");
}
