//! The turn-sequencing state machine: strict alternation, bounds- and
//! occupancy-checked moves, and the final outcome text.
use vstd::prelude::*;

use crate::board::{
    board_impossible, cell_at, count_diff, player_mark, player_name, positions_of, status_of,
    Board, Mark, Position, Status,
};

verus! {

/// Why a requested turn was refused: the position lies outside the grid, or
/// its cell is already taken. The current player retries either way.
#[derive(Copy, Clone, Debug, PartialEq, Eq, Structural)]
pub enum TurnError {
    OutOfBounds,
    CellOccupied,
}

/// One interactive game: the board, whose turn it is (the first player
/// starts), and whether an explicit stop was requested.
pub struct Game {
    board: Board,
    curr_player: bool,
    stopped: bool,
}

impl Game {
    /// The cells of the game's board.
    pub closed spec fn marks(&self) -> Seq<Mark> {
        self.board@
    }

    /// Whether the first player moves next.
    pub closed spec fn first_turn(&self) -> bool {
        self.curr_player
    }

    /// Whether an explicit stop was requested.
    pub closed spec fn is_stopped(&self) -> bool {
        self.stopped
    }

    /// Every game the library hands out satisfies this: the board has its 9
    /// cells, the mark counts match whose turn it is (they are level when the
    /// first player moves next, one apart otherwise), and the board's status
    /// is never the impossible one — play that alternates strictly and checks
    /// bounds and occupancy cannot produce such a board.
    pub open spec fn wf(&self) -> bool {
        &&& self.marks().len() == 9
        &&& count_diff(self.marks()) == if self.first_turn() {
            0int
        } else {
            1int
        }
        &&& status_of(self.marks()) != Status::Impossible
    }

    /// Whether the game still accepts turns.
    pub open spec fn ongoing_spec(&self) -> bool {
        !self.is_stopped() && status_of(self.marks()) == Status::Ongoing
    }

    /// A fresh game: empty board, first player to move, not stopped.
    pub fn new() -> (game: Game)
        ensures
            game.wf(),
            forall|i: int| 0 <= i < 9 ==> game.marks()[i] == Mark::Empty,
            game.first_turn(),
            !game.is_stopped(),
    {
        let board = Board::new();
        proof {
            crate::board::lemma_all_empty_counts(board@, Mark::First);
            crate::board::lemma_all_empty_counts(board@, Mark::Second);
        }
        Game { board, curr_player: true, stopped: false }
    }

    /// Whether the first player moves next.
    pub fn first_player_turn(&self) -> (first: bool)
        ensures
            first == self.first_turn(),
    {
        self.curr_player
    }

    /// The fixed ASCII-art form of the game's board.
    pub fn board_string(&self) -> (text: String)
        requires
            self.wf(),
        ensures
            text@ == crate::board::rendered(self.marks()),
    {
        self.board.render()
    }

    /// The loop's continuation test: no stop requested and the board still
    /// evaluates to an ongoing game.
    pub fn ongoing(&self) -> (keep_playing: bool)
        requires
            self.wf(),
        ensures
            keep_playing == self.ongoing_spec(),
    {
        !self.stopped && self.board.status() == Status::Ongoing
    }

    /// All positions where the given player has placed a mark, in row-major
    /// scan order.
    pub fn positions(&self, player: bool) -> (found: Vec<Position>)
        requires
            self.wf(),
        ensures
            found@ == positions_of(self.marks(), player_mark(player), 9),
    {
        self.board.occupied_positions(player)
    }

    /// Checks a requested position: outside the grid, or at an occupied cell,
    /// it is refused and says why; otherwise it is accepted.
    pub fn valid_turn(&self, pos: &Position) -> (validity: Result<(), TurnError>)
        requires
            self.wf(),
        ensures
            validity == turn_validity(self.marks(), *pos),
    {
        if pos.0 >= 3 || pos.1 >= 3 {
            Err(TurnError::OutOfBounds)
        } else if !self.board.empty(pos) {
            Err(TurnError::CellOccupied)
        } else {
            Ok(())
        }
    }

    /// Applies one command to an ongoing game. A stop only sets the stop
    /// flag; a refused turn changes nothing and the same player retries; an
    /// accepted turn writes the current player's mark and flips the turn.
    /// Either way the game stays one that alternating play can reach.
    pub fn turn(&mut self, cmd: &crate::input::Command)
        requires
            old(self).wf(),
            old(self).ongoing_spec(),
        ensures
            final(self).wf(),
            cmd is Stop ==> final(self).marks() == old(self).marks() && final(self).first_turn()
                == old(self).first_turn() && final(self).is_stopped(),
            cmd matches crate::input::Command::Turn(pos) ==> {
                &&& turn_validity(old(self).marks(), *pos) is Err ==> *final(self) == *old(self)
                &&& turn_validity(old(self).marks(), *pos) is Ok
                    ==> final(self).marks() == old(self).marks().update(
                        cell_at(pos.0 as int, pos.1 as int),
                        player_mark(old(self).first_turn()),
                    ) && final(self).first_turn() == !old(self).first_turn()
                        && !final(self).is_stopped()
            },
    {
        match cmd {
            crate::input::Command::Stop => {
                self.stopped = true;
            },
            crate::input::Command::Turn(pos) => {
                if self.valid_turn(pos).is_ok() {
                    let mark = if self.curr_player {
                        Mark::First
                    } else {
                        Mark::Second
                    };
                    proof {
                        crate::board::lemma_move_keeps_reachable(
                            self.board@,
                            cell_at(pos.0 as int, pos.1 as int),
                            self.curr_player,
                        );
                    }
                    self.board.set(*pos, mark);
                    self.curr_player = !self.curr_player;
                }
            },
        }
    }

    /// The outcome text of a finished (or stopped) game. A game the library
    /// hands out is never in the impossible state, so that case needs no
    /// text.
    pub fn status_string(&self) -> (text: String)
        requires
            self.wf(),
        ensures
            status_of(self.marks()) matches Status::Winner(player) ==> text@ == (if player {
                "the player X wins!"@
            } else {
                "the player O wins!"@
            }),
            status_of(self.marks()) == Status::Tie ==> text@ == "it is a tie!"@,
            status_of(self.marks()) == Status::Ongoing ==> text@ == "stopped early."@,
    {
        match self.board.status() {
            Status::Winner(player) => {
                let mut text = String::from_str("the player ");
                let name = player_name(player);
                text.append(name.as_str());
                text.append(" wins!");
                proof {
                    reveal_strlit("the player ");
                    reveal_strlit(" wins!");
                    reveal_strlit("the player X wins!");
                    reveal_strlit("the player O wins!");
                    if player {
                        assert(text@ =~= "the player X wins!"@);
                    } else {
                        assert(text@ =~= "the player O wins!"@);
                    }
                }
                text
            },
            Status::Tie => String::from_str("it is a tie!"),
            Status::Ongoing => String::from_str("stopped early."),
            Status::Impossible => vstd::pervasive::unreached(),
        }
    }
}

/// What `valid_turn` decides about a requested position on a given board.
pub open spec fn turn_validity(board: Seq<Mark>, pos: Position) -> Result<(), TurnError> {
    if pos.0 >= 3 || pos.1 >= 3 {
        Err(TurnError::OutOfBounds)
    } else if board[cell_at(pos.0 as int, pos.1 as int)] != Mark::Empty {
        Err(TurnError::CellOccupied)
    } else {
        Ok(())
    }
}

/// The law the game loop guarantees: a game reached through the library's
/// own turn discipline never evaluates to the impossible status.
pub proof fn lemma_alternating_play_not_impossible(game: Game)
    requires
        game.wf(),
    ensures
        status_of(game.marks()) != Status::Impossible,
        !board_impossible(game.marks()),
{
}

} // verus!
