//! Randomized self-play: boards filled by strictly alternating marks at
//! randomly chosen free cells, used to exercise the status evaluation. Every
//! board a simulation returns is one that alternating play can reach, so its
//! status is never the impossible one.
use vstd::prelude::*;

use rand::Rng;

use crate::board::{
    board_impossible, cell_at, count_diff, has_empty, lemma_all_empty_counts,
    lemma_count_at_least_one, lemma_move_keeps_reachable, lemma_positions_of_props, player_name,
    status_of, Board, Mark, Position, Status,
};

verus! {

/// The thread-local random number generator of the rand crate, used here as
/// an opaque handle: nothing is assumed about the values it yields beyond
/// what each call's contract states.
#[verifier::external_type_specification]
#[verifier::external_body]
pub struct ExThreadRng(rand::rngs::ThreadRng);

/// Relies on rand::thread_rng: a handle to the thread-local generator.
#[verifier::external_body]
fn fresh_rng() -> rand::rngs::ThreadRng {
    rand::thread_rng()
}

/// Relies on rand::Rng::gen_range: a value drawn uniformly from the given
/// range, which must not be empty.
#[verifier::external_body]
fn random_below(rng: &mut rand::rngs::ThreadRng, n: usize) -> (drawn: usize)
    requires
        n > 0,
    ensures
        drawn < n,
{
    rng.gen_range(0..n)
}

/// Picks a uniformly random free cell of the board.
fn make_random_turn(board: &Board, rng: &mut rand::rngs::ThreadRng) -> (pos: Position)
    requires
        board.wf(),
        has_empty(board@),
    ensures
        pos.0 < 3,
        pos.1 < 3,
        board@[cell_at(pos.0 as int, pos.1 as int)] == Mark::Empty,
{
    let empties = board.positions_of_mark(Mark::Empty);
    proof {
        lemma_positions_of_props(board@, Mark::Empty, 9);
        assert(board@.take(9) =~= board@);
        let witness = choose|i: int| 0 <= i < 9 && board@[i] == Mark::Empty;
        lemma_count_at_least_one(board@, Mark::Empty, witness);
    }
    let j = random_below(rng, empties.len());
    empties[j]
}

/// Simulates a single game and returns the final state of the board: marks
/// strictly alternate (the first player starts) on randomly chosen free
/// cells, and placement stops as soon as the game is no longer ongoing or
/// the board is full. Whatever the random choices, the result is a board
/// alternating play can reach: never the impossible status.
pub fn simulate_one(rng: &mut rand::rngs::ThreadRng) -> (board: Board)
    ensures
        board.wf(),
        !board_impossible(board@),
        status_of(board@) != Status::Impossible,
        status_of(board@) != Status::Ongoing,
{
    let mut board = Board::new();
    let mut first = true;
    proof {
        lemma_all_empty_counts(board@, Mark::First);
        lemma_all_empty_counts(board@, Mark::Second);
        lemma_all_empty_counts(board@, Mark::Empty);
    }
    let mut turn: usize = 0;
    while turn < 9
        invariant_except_break
            board.wf(),
            turn <= 9,
            count_diff(board@) == if first {
                0int
            } else {
                1int
            },
            crate::board::count_marks(board@, Mark::Empty) == 9 - turn,
            status_of(board@) == Status::Ongoing,
        ensures
            board.wf(),
            count_diff(board@) == 0 || count_diff(board@) == 1,
            status_of(board@) != Status::Impossible,
            status_of(board@) != Status::Ongoing || crate::board::count_marks(
                board@,
                Mark::Empty,
            ) == 0,
        decreases 9 - turn,
    {
        let pos = make_random_turn(&board, rng);
        let mark = if first {
            Mark::First
        } else {
            Mark::Second
        };
        proof {
            lemma_move_keeps_reachable(board@, cell_at(pos.0 as int, pos.1 as int), first);
            crate::board::lemma_count_update(
                board@,
                cell_at(pos.0 as int, pos.1 as int),
                mark,
                Mark::Empty,
            );
        }
        board.set(pos, mark);
        first = !first;
        turn = turn + 1;
        let status = board.status();
        if status != Status::Ongoing {
            break ;
        }
    }
    proof {
        // a board with no free cell cannot be ongoing, so either way the
        // simulation stopped at an outcome
        if status_of(board@) == Status::Ongoing {
            let witness = choose|i: int| 0 <= i < 9 && board@[i] == Mark::Empty;
            lemma_count_at_least_one(board@, Mark::Empty, witness);
        }
    }
    board
}

/// Simulates `n` games, each on a fresh board with a shared random source,
/// and returns the final states. Every returned board is one alternating
/// play can reach, played out to an outcome: none evaluates to the
/// impossible status, and none is still ongoing.
pub fn simulate(n: usize) -> (boards: Vec<Board>)
    ensures
        boards@.len() == n,
        forall|i: int|
            0 <= i < n ==> (#[trigger] boards@[i]).wf() && !board_impossible(boards@[i]@)
                && status_of(boards@[i]@) != Status::Impossible && status_of(boards@[i]@)
                != Status::Ongoing,
{
    let mut rng = fresh_rng();
    let mut boards: Vec<Board> = Vec::new();
    let mut k: usize = 0;
    while k < n
        invariant
            k <= n,
            boards@.len() == k,
            forall|i: int|
                0 <= i < k ==> (#[trigger] boards@[i]).wf() && !board_impossible(boards@[i]@)
                    && status_of(boards@[i]@) != Status::Impossible && status_of(boards@[i]@)
                    != Status::Ongoing,
        decreases n - k,
    {
        let board = simulate_one(&mut rng);
        boards.push(board);
        k = k + 1;
    }
    boards
}

/// The log line for a board's status.
pub fn status_message(status: &Status) -> (text: String)
    ensures
        *status matches Status::Winner(player) ==> text@ == (if player {
            "The player X wins!"@
        } else {
            "The player O wins!"@
        }),
        *status == Status::Ongoing ==> text@ == "The game keeps going..."@,
        *status == Status::Tie ==> text@ == "It is a tie, no winners."@,
        *status == Status::Impossible ==> text@ == "Impossible board state!"@,
{
    match status {
        Status::Ongoing => String::from_str("The game keeps going..."),
        Status::Winner(player) => {
            let mut text = String::from_str("The player ");
            let name = player_name(*player);
            text.append(name.as_str());
            text.append(" wins!");
            proof {
                reveal_strlit("The player ");
                reveal_strlit(" wins!");
                reveal_strlit("The player X wins!");
                reveal_strlit("The player O wins!");
                if *player {
                    assert(text@ =~= "The player X wins!"@);
                } else {
                    assert(text@ =~= "The player O wins!"@);
                }
            }
            text
        },
        Status::Tie => String::from_str("It is a tie, no winners."),
        Status::Impossible => String::from_str("Impossible board state!"),
    }
}

} // verus!
