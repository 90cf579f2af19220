use tictactoe::board::{Board, Status};
use tictactoe::simulator::{simulate, status_message};

#[test]
fn test_simulation() {
    let boards = simulate(10);

    let impossible: Vec<&Board> = boards.iter().filter(|x| x.impossible()).collect();

    assert!(boards.len() == 10);
    assert!(impossible.len() == 0);
}

#[test]
fn test_simulation_always_plays_to_an_outcome() {
    let boards = simulate(25);

    for board in boards.iter() {
        assert!(!board.impossible());
        let status = board.status();
        assert!(status != Status::Ongoing);
        assert!(status != Status::Impossible);
        // marks were really placed: a finished game has at least three for
        // the first player and two for the second
        assert!(board.occupied_positions(true).len() >= 3);
        assert!(board.occupied_positions(false).len() >= 2);
    }
}

#[test]
fn test_status_messages() {
    assert_eq!(status_message(&Status::Ongoing), "The game keeps going...");
    assert_eq!(status_message(&Status::Winner(true)), "The player X wins!");
    assert_eq!(status_message(&Status::Winner(false)), "The player O wins!");
    assert_eq!(status_message(&Status::Tie), "It is a tie, no winners.");
    assert_eq!(status_message(&Status::Impossible), "Impossible board state!");
}
