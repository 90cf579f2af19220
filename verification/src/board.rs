//! The 3x3 board: cell marks, status evaluation, serialization and rendering.
use vstd::prelude::*;

verus! {

/// Number of rows and of columns of the board.
pub const SIDE_SIZE: usize = 3;
/// Number of cells of the board.
pub const BOARD_SIZE: usize = 9;

/// A cell address: `(row, column)`, each in `{0, 1, 2}` when on the board.
pub type Position = (usize, usize);

/// What a single cell holds.
#[derive(Copy, Clone, Debug, PartialEq, Eq, Structural, Hash)]
pub enum Mark {
    First,
    Second,
    Empty,
}

/// The evaluated outcome of a board. `Winner(true)` is a win for the first
/// player, `Winner(false)` for the second.
#[derive(Copy, Clone, Debug, PartialEq, Eq, Structural)]
pub enum Status {
    Winner(bool),
    Ongoing,
    Tie,
    Impossible,
}

/// The 3x3 grid, stored row-major as 9 cells.
pub struct Board {
    cells: Vec<Mark>,
}

/// The flat, row-major index of the cell at `(row, col)`.
pub open spec fn cell_at(row: int, col: int) -> int {
    row * 3 + col
}

/// The mark a player places: the first player plays `First`.
pub open spec fn player_mark(first: bool) -> Mark {
    if first {
        Mark::First
    } else {
        Mark::Second
    }
}

impl View for Board {
    type V = Seq<Mark>;

    closed spec fn view(&self) -> Seq<Mark> {
        self.cells@
    }
}

impl Board {
    /// A board is exactly its 9 cells.
    pub open spec fn wf(&self) -> bool {
        self@.len() == 9
    }

    /// An empty board.
    pub fn new() -> (board: Board)
        ensures
            board.wf(),
            forall|i: int| 0 <= i < 9 ==> board@[i] == Mark::Empty,
    {
        let mut cells: Vec<Mark> = Vec::new();
        cells.push(Mark::Empty);
        cells.push(Mark::Empty);
        cells.push(Mark::Empty);
        cells.push(Mark::Empty);
        cells.push(Mark::Empty);
        cells.push(Mark::Empty);
        cells.push(Mark::Empty);
        cells.push(Mark::Empty);
        cells.push(Mark::Empty);
        Board { cells }
    }

    /// The mark at `pos`; indexing outside the grid is a caller error.
    pub fn get(&self, pos: Position) -> (mark: Mark)
        requires
            self.wf(),
            pos.0 < 3,
            pos.1 < 3,
        ensures
            mark == self@[cell_at(pos.0 as int, pos.1 as int)],
    {
        let (i, j) = check_bounds(pos);
        self.cells[i * 3 + j]
    }

    /// Writes `mark` at `pos`; indexing outside the grid is a caller error.
    pub fn set(&mut self, pos: Position, mark: Mark)
        requires
            old(self).wf(),
            pos.0 < 3,
            pos.1 < 3,
        ensures
            final(self).wf(),
            final(self)@ == old(self)@.update(cell_at(pos.0 as int, pos.1 as int), mark),
    {
        let (i, j) = check_bounds(pos);
        self.cells.set(i * 3 + j, mark);
    }

    /// Whether the cell at `pos` is unoccupied.
    pub fn empty(&self, pos: &Position) -> (unoccupied: bool)
        requires
            self.wf(),
            pos.0 < 3,
            pos.1 < 3,
        ensures
            unoccupied == (self@[cell_at(pos.0 as int, pos.1 as int)] == Mark::Empty),
    {
        self.get(*pos) == Mark::Empty
    }
}

/// Passes an in-range position through; out-of-range indexing is a caller
/// error, ruled out by the precondition.
pub fn check_bounds(pos: Position) -> (checked: Position)
    requires
        pos.0 < 3,
        pos.1 < 3,
    ensures
        checked == pos,
{
    pos
}

/// How many cells of `board` hold `mark`.
pub open spec fn count_marks(board: Seq<Mark>, mark: Mark) -> int
    decreases board.len(),
{
    if board.len() == 0 {
        0
    } else {
        count_marks(board.drop_last(), mark) + if board.last() == mark {
            1int
        } else {
            0int
        }
    }
}

/// The first player's mark count minus the second player's.
pub open spec fn count_diff(board: Seq<Mark>) -> int {
    count_marks(board, Mark::First) - count_marks(board, Mark::Second)
}

/// A board no legal alternating game (first player starting) can reach:
/// the two players' mark counts differ by more than one.
pub open spec fn board_impossible(board: Seq<Mark>) -> bool {
    count_diff(board) > 1 || count_diff(board) < -1
}

/// The cells at `p0`, `p1`, `p2` all hold `mark`.
pub open spec fn line_is(board: Seq<Mark>, p0: int, p1: int, p2: int, mark: Mark) -> bool {
    board[p0] == mark && board[p1] == mark && board[p2] == mark
}

/// The player with `mark` owns a complete row, column or diagonal.
pub open spec fn wins(board: Seq<Mark>, mark: Mark) -> bool {
    ||| line_is(board, 0, 1, 2, mark)
    ||| line_is(board, 3, 4, 5, mark)
    ||| line_is(board, 6, 7, 8, mark)
    ||| line_is(board, 0, 3, 6, mark)
    ||| line_is(board, 1, 4, 7, mark)
    ||| line_is(board, 2, 5, 8, mark)
    ||| line_is(board, 0, 4, 8, mark)
    ||| line_is(board, 6, 4, 2, mark)
}

/// At least one cell is unoccupied.
pub open spec fn has_empty(board: Seq<Mark>) -> bool {
    exists|i: int| 0 <= i < 9 && board[i] == Mark::Empty
}

/// The outcome of the whole evaluation: the impossibility check comes first
/// (a mark-count imbalance, or complete lines for both players at once, can
/// never arise from alternating play); then wins, then tie against ongoing.
pub open spec fn status_of(board: Seq<Mark>) -> Status {
    if board_impossible(board) || (wins(board, Mark::First) && wins(board, Mark::Second)) {
        Status::Impossible
    } else if wins(board, Mark::First) {
        Status::Winner(true)
    } else if wins(board, Mark::Second) {
        Status::Winner(false)
    } else if has_empty(board) {
        Status::Ongoing
    } else {
        Status::Tie
    }
}

/// The outcome of scanning one line: a win for whichever player holds all
/// three of its cells, else nothing.
pub open spec fn line_status(board: Seq<Mark>, p0: int, p1: int, p2: int) -> Status {
    if line_is(board, p0, p1, p2, Mark::First) {
        Status::Winner(true)
    } else if line_is(board, p0, p1, p2, Mark::Second) {
        Status::Winner(false)
    } else {
        Status::Ongoing
    }
}

/// Counting one more cell extends the count by whether that cell matches.
proof fn lemma_count_take_step(board: Seq<Mark>, mark: Mark, i: int)
    requires
        0 <= i < board.len(),
    ensures
        count_marks(board.take(i + 1), mark) == count_marks(board.take(i), mark) + if board[i]
            == mark {
            1int
        } else {
            0int
        },
{
    assert(board.take(i + 1).drop_last() =~= board.take(i));
    assert(board.take(i + 1).last() == board[i]);
}

/// Counting the whole board is counting its 9-cell prefix.
proof fn lemma_count_take_all(board: Seq<Mark>, mark: Mark)
    requires
        board.len() == 9,
    ensures
        count_marks(board.take(9), mark) == count_marks(board, mark),
{
    assert(board.take(9) =~= board);
}

/// Overwriting one cell shifts each mark's count by what left and what came.
pub proof fn lemma_count_update(board: Seq<Mark>, i: int, put: Mark, mark: Mark)
    requires
        0 <= i < board.len(),
    ensures
        count_marks(board.update(i, put), mark) == count_marks(board, mark) - (if board[i] == mark {
            1int
        } else {
            0int
        }) + (if put == mark {
            1int
        } else {
            0int
        }),
    decreases board.len(),
{
    if i == board.len() - 1 {
        assert(board.update(i, put).drop_last() =~= board.drop_last());
    } else {
        assert(board.update(i, put).drop_last() =~= board.drop_last().update(i, put));
        lemma_count_update(board.drop_last(), i, put, mark);
    }
}

/// A cell holding `mark` makes that mark's count positive.
pub proof fn lemma_count_at_least_one(board: Seq<Mark>, mark: Mark, i: int)
    requires
        0 <= i < board.len(),
        board[i] == mark,
    ensures
        count_marks(board, mark) >= 1,
    decreases board.len(),
{
    lemma_count_nonnegative(board.drop_last(), mark);
    if i < board.len() - 1 {
        lemma_count_at_least_one(board.drop_last(), mark, i);
    }
}

/// A count of marks is never negative.
pub proof fn lemma_count_nonnegative(board: Seq<Mark>, mark: Mark)
    ensures
        count_marks(board, mark) >= 0,
    decreases board.len(),
{
    if board.len() > 0 {
        lemma_count_nonnegative(board.drop_last(), mark);
    }
}

impl Board {
    /// Whether the two players' mark counts differ by more than one: such a
    /// board cannot arise from strict alternating play.
    pub fn impossible(&self) -> (imp: bool)
        requires
            self.wf(),
        ensures
            imp == board_impossible(self@),
    {
        let mut fst: usize = 0;
        let mut snd: usize = 0;
        let mut k: usize = 0;
        while k < 9
            invariant
                self.wf(),
                k <= 9,
                fst <= k,
                snd <= k,
                fst == count_marks(self@.take(k as int), Mark::First),
                snd == count_marks(self@.take(k as int), Mark::Second),
            decreases 9 - k,
        {
            proof {
                lemma_count_take_step(self@, Mark::First, k as int);
                lemma_count_take_step(self@, Mark::Second, k as int);
            }
            match self.cells[k] {
                Mark::First => {
                    fst = fst + 1;
                },
                Mark::Second => {
                    snd = snd + 1;
                },
                Mark::Empty => {},
            }
            k = k + 1;
        }
        proof {
            lemma_count_take_all(self@, Mark::First);
            lemma_count_take_all(self@, Mark::Second);
        }
        fst > snd + 1 || snd > fst + 1
    }

    /// Scans row `i` (when `rows` is set) or column `i` for a complete line.
    pub fn check(&self, i: usize, rows: bool) -> (found: Status)
        requires
            self.wf(),
            i < 3,
        ensures
            rows ==> found == line_status(self@, 3 * i as int, 3 * i as int + 1, 3 * i as int + 2),
            !rows ==> found == line_status(self@, i as int, i as int + 3, i as int + 6),
    {
        let (a, b, c) = if rows {
            (self.get((i, 0)), self.get((i, 1)), self.get((i, 2)))
        } else {
            (self.get((0, i)), self.get((1, i)), self.get((2, i)))
        };
        if a == Mark::First && b == Mark::First && c == Mark::First {
            Status::Winner(true)
        } else if a == Mark::Second && b == Mark::Second && c == Mark::Second {
            Status::Winner(false)
        } else {
            Status::Ongoing
        }
    }

    /// Scans the two diagonals for a complete line, the one through `(0,0)`
    /// first.
    pub fn diagonals(&self) -> (found: Status)
        requires
            self.wf(),
        ensures
            found == if line_status(self@, 0, 4, 8) != Status::Ongoing {
                line_status(self@, 0, 4, 8)
            } else {
                line_status(self@, 6, 4, 2)
            },
    {
        let a = self.get((0, 0));
        let m = self.get((1, 1));
        let b = self.get((2, 2));
        if a == Mark::First && m == Mark::First && b == Mark::First {
            return Status::Winner(true);
        }
        if a == Mark::Second && m == Mark::Second && b == Mark::Second {
            return Status::Winner(false);
        }
        let c = self.get((2, 0));
        let d = self.get((0, 2));
        if c == Mark::First && m == Mark::First && d == Mark::First {
            return Status::Winner(true);
        }
        if c == Mark::Second && m == Mark::Second && d == Mark::Second {
            return Status::Winner(false);
        }
        Status::Ongoing
    }

    /// Whether some cell is still unoccupied.
    fn any_empty(&self) -> (found: bool)
        requires
            self.wf(),
        ensures
            found == has_empty(self@),
    {
        let mut k: usize = 0;
        while k < 9
            invariant
                self.wf(),
                k <= 9,
                forall|j: int| 0 <= j < k ==> self@[j] != Mark::Empty,
            decreases 9 - k,
        {
            if self.cells[k] == Mark::Empty {
                return true;
            }
            k = k + 1;
        }
        false
    }

    /// Evaluates the board: the impossibility check short-circuits everything,
    /// then complete lines are scanned (rows, columns, diagonals), then the
    /// board is a tie exactly when it is full.
    pub fn status(&self) -> (status: Status)
        requires
            self.wf(),
        ensures
            status == status_of(self@),
    {
        if self.impossible() {
            return Status::Impossible;
        }
        let r0 = self.check(0, true);
        let r1 = self.check(1, true);
        let r2 = self.check(2, true);
        let c0 = self.check(0, false);
        let c1 = self.check(1, false);
        let c2 = self.check(2, false);
        let d = self.diagonals();
        let first_wins = r0 == Status::Winner(true) || r1 == Status::Winner(true) || r2
            == Status::Winner(true) || c0 == Status::Winner(true) || c1 == Status::Winner(true)
            || c2 == Status::Winner(true) || d == Status::Winner(true);
        let second_wins = r0 == Status::Winner(false) || r1 == Status::Winner(false) || r2
            == Status::Winner(false) || c0 == Status::Winner(false) || c1 == Status::Winner(false)
            || c2 == Status::Winner(false) || d == Status::Winner(false);
        if first_wins && second_wins {
            // complete lines for both players at once cannot come from
            // alternating play either
            return Status::Impossible;
        }
        if first_wins {
            return Status::Winner(true);
        }
        if second_wins {
            return Status::Winner(false);
        }
        if self.any_empty() {
            Status::Ongoing
        } else {
            Status::Tie
        }
    }
}

/// Rejection of a textual board that is not three `|`-separated segments of
/// exactly three characters from `{'.', 'x', 'o'}`.
#[derive(Copy, Clone, Debug, PartialEq, Eq, Structural)]
pub struct ParseError;

/// The serialization alphabet.
pub open spec fn mark_char(c: char) -> bool {
    c == '.' || c == 'x' || c == 'o'
}

/// The mark a serialization character stands for.
pub open spec fn mark_of_char(c: char) -> Mark {
    if c == 'x' {
        Mark::First
    } else if c == 'o' {
        Mark::Second
    } else {
        Mark::Empty
    }
}

/// A well-formed serialized board: three segments of three alphabet
/// characters, separated by `|` (so 11 characters, bars at 3 and 7).
pub open spec fn serialized_wf(s: Seq<char>) -> bool {
    &&& s.len() == 11
    &&& s[3] == '|'
    &&& s[7] == '|'
    &&& forall|i: int| 0 <= i < 11 && i % 4 != 3 ==> mark_char(#[trigger] s[i])
}

/// The cells a well-formed serialized board encodes: cell `i` sits at string
/// index `i + i / 3` (each row shifted past the bars before it).
pub open spec fn parsed_board(s: Seq<char>) -> Seq<Mark> {
    Seq::new(9, |i: int| mark_of_char(s[i + i / 3]))
}

impl Board {
    /// Deserializes a board from its textual form, rejecting anything that is
    /// not exactly three segments of three alphabet characters.
    pub fn parse(s: &str) -> (parsed: Result<Board, ParseError>)
        ensures
            parsed matches Ok(board) ==> board.wf() && board@ == parsed_board(s@),
            parsed is Ok <==> serialized_wf(s@),
    {
        let n = s.unicode_len();
        if n != 11 {
            return Err(ParseError);
        }
        if s.get_char(3) != '|' || s.get_char(7) != '|' {
            return Err(ParseError);
        }
        let mut board = Board::new();
        let mut k: usize = 0;
        while k < 9
            invariant
                board.wf(),
                s@.len() == 11,
                s@[3] == '|',
                s@[7] == '|',
                k <= 9,
                forall|i: int|
                    0 <= i < k ==> mark_char(#[trigger] s@[i + i / 3]) && board@[i]
                        == mark_of_char(s@[i + i / 3]),
            decreases 9 - k,
        {
            let j = k + k / 3;
            let c = s.get_char(j);
            let m = if c == 'x' {
                Mark::First
            } else if c == 'o' {
                Mark::Second
            } else if c == '.' {
                Mark::Empty
            } else {
                proof {
                    assert(j % 4 != 3 && !mark_char(s@[j as int]));
                }
                return Err(ParseError);
            };
            board.set((k / 3, k % 3), m);
            k = k + 1;
        }
        proof {
            assert forall|i: int| 0 <= i < 11 && i % 4 != 3 implies mark_char(#[trigger] s@[i]) by {
                let cell = i - i / 4;
                assert(cell + cell / 3 == i);
                assert(mark_char(s@[cell + cell / 3]));
            }
            assert(board@ =~= parsed_board(s@));
        }
        Ok(board)
    }
}

/// The display character of a cell.
pub open spec fn mark_to_char(mark: Mark) -> char {
    match mark {
        Mark::Empty => '.',
        Mark::First => 'x',
        Mark::Second => 'o',
    }
}

/// The horizontal border of the rendered board, newline included.
pub open spec fn border_chars() -> Seq<char> {
    seq!['+', '-', '-', '-', '+', '\n']
}

/// One rendered row: the three cells of `row` between `|` walls, newline
/// included.
pub open spec fn row_chars(board: Seq<Mark>, row: int) -> Seq<char> {
    seq![
        '|',
        mark_to_char(board[3 * row]),
        mark_to_char(board[3 * row + 1]),
        mark_to_char(board[3 * row + 2]),
        '|',
        '\n',
    ]
}

/// The full rendered board: a border, the three rows, a border.
pub open spec fn rendered(board: Seq<Mark>) -> Seq<char> {
    border_chars() + row_chars(board, 0) + row_chars(board, 1) + row_chars(board, 2)
        + border_chars()
}

/// The one-character label of a cell.
fn mark_label(mark: Mark) -> (label: &'static str)
    ensures
        label@ == seq![mark_to_char(mark)],
{
    proof {
        reveal_strlit(".");
        reveal_strlit("x");
        reveal_strlit("o");
    }
    let label = match mark {
        Mark::Empty => ".",
        Mark::First => "x",
        Mark::Second => "o",
    };
    assert(label@ =~= seq![mark_to_char(mark)]);
    label
}

impl Board {
    /// One row of the fixed ASCII-art form.
    fn row_string(&self, row: usize) -> (out: String)
        requires
            self.wf(),
            row < 3,
        ensures
            out@ == row_chars(self@, row as int),
    {
        let mut out = String::from_str("|");
        out.append(mark_label(self.get((row, 0))));
        out.append(mark_label(self.get((row, 1))));
        out.append(mark_label(self.get((row, 2))));
        out.append("|\n");
        proof {
            reveal_strlit("|");
            reveal_strlit("|\n");
            assert(out@ =~= row_chars(self@, row as int));
        }
        out
    }

    /// The fixed ASCII-art form: a top border, three bordered rows, a bottom
    /// border, each line ending in a newline.
    pub fn render(&self) -> (out: String)
        requires
            self.wf(),
        ensures
            out@ == rendered(self@),
    {
        let mut out = String::from_str("+---+\n");
        let row0 = self.row_string(0);
        out.append(row0.as_str());
        let row1 = self.row_string(1);
        out.append(row1.as_str());
        let row2 = self.row_string(2);
        out.append(row2.as_str());
        out.append("+---+\n");
        proof {
            reveal_strlit("+---+\n");
            assert(out@ =~= rendered(self@));
        }
        out
    }
}

/// The positions among the first `n` cells that hold `mark`, in row-major
/// scan order.
pub open spec fn positions_of(board: Seq<Mark>, mark: Mark, n: int) -> Seq<Position>
    decreases n,
{
    if n <= 0 {
        Seq::empty()
    } else {
        positions_of(board, mark, n - 1) + if board[n - 1] == mark {
            seq![(((n - 1) / 3) as usize, ((n - 1) % 3) as usize)]
        } else {
            Seq::empty()
        }
    }
}

/// The positions listed for a mark are exactly its cells: the list is as long
/// as the mark's count, and each entry is an on-board position holding it.
pub proof fn lemma_positions_of_props(board: Seq<Mark>, mark: Mark, n: int)
    requires
        board.len() == 9,
        0 <= n <= 9,
    ensures
        positions_of(board, mark, n).len() == count_marks(board.take(n), mark),
        forall|j: int|
            0 <= j < positions_of(board, mark, n).len() ==> {
                let pos = #[trigger] positions_of(board, mark, n)[j];
                pos.0 < 3 && pos.1 < 3 && board[cell_at(pos.0 as int, pos.1 as int)] == mark
            },
    decreases n,
{
    if n > 0 {
        lemma_positions_of_props(board, mark, n - 1);
        lemma_count_take_step(board, mark, n - 1);
    }
}

impl Board {
    /// All positions holding `mark`, in row-major scan order.
    pub(crate) fn positions_of_mark(&self, mark: Mark) -> (found: Vec<Position>)
        requires
            self.wf(),
        ensures
            found@ == positions_of(self@, mark, 9),
    {
        let mut found: Vec<Position> = Vec::new();
        let mut k: usize = 0;
        while k < 9
            invariant
                self.wf(),
                k <= 9,
                found@ =~= positions_of(self@, mark, k as int),
            decreases 9 - k,
        {
            if self.cells[k] == mark {
                found.push((k / 3, k % 3));
            }
            k = k + 1;
        }
        proof {
            assert(found@ =~= positions_of(self@, mark, 9));
        }
        found
    }

    /// All positions where the given player (the first when `first` is set)
    /// has placed a mark, in row-major scan order.
    pub fn occupied_positions(&self, first: bool) -> (found: Vec<Position>)
        requires
            self.wf(),
        ensures
            found@ == positions_of(self@, player_mark(first), 9),
    {
        if first {
            self.positions_of_mark(Mark::First)
        } else {
            self.positions_of_mark(Mark::Second)
        }
    }
}

/// A lopsided board is impossible whatever its lines hold: whenever the two
/// players' mark counts differ by more than one, the status is `Impossible`.
pub proof fn lemma_imbalance_is_impossible(board: Seq<Mark>)
    requires
        count_diff(board) > 1 || count_diff(board) < -1,
    ensures
        status_of(board) == Status::Impossible,
{
}

/// Round trip: rendering the board parsed from a well-formed serialization
/// reconstructs exactly the serialized mark layout — the cell at
/// `(row, col)` of the rendered text (its rows start after the border, each
/// one wall character in) is the very character the serialization holds for
/// that cell.
pub proof fn lemma_parse_render_round_trip(s: Seq<char>)
    requires
        serialized_wf(s),
    ensures
        forall|row: int, col: int|
            0 <= row < 3 && 0 <= col < 3 ==> rendered(parsed_board(s))[6 * row + col + 7] == #[trigger] s[4 * row + col],
{
    let b = parsed_board(s);
    assert forall|row: int, col: int|
        0 <= row < 3 && 0 <= col < 3 implies rendered(b)[6 * row + col + 7] == #[trigger] s[4 * row + col] by {
        let cell = 3 * row + col;
        assert(b[cell] == mark_of_char(s[cell + cell / 3]));
        assert(cell + cell / 3 == 4 * row + col);
        assert(mark_char(s[4 * row + col]));
        if row == 0 {
            assert(rendered(b)[6 * row + col + 7] == mark_to_char(b[cell]));
        } else if row == 1 {
            assert(rendered(b)[6 * row + col + 7] == mark_to_char(b[cell]));
        } else {
            assert(rendered(b)[6 * row + col + 7] == mark_to_char(b[cell]));
        }
    }
}

/// A board of nothing but empty cells holds no player marks.
pub proof fn lemma_all_empty_counts(board: Seq<Mark>, mark: Mark)
    requires
        forall|i: int| 0 <= i < board.len() ==> board[i] == Mark::Empty,
    ensures
        count_marks(board, mark) == if mark == Mark::Empty {
            board.len() as int
        } else {
            0int
        },
    decreases board.len(),
{
    if board.len() > 0 {
        lemma_all_empty_counts(board.drop_last(), mark);
    }
}

/// Placing the mark whose turn it is on an empty cell of an ongoing board
/// keeps the counts level or one apart and the status possible: this is why
/// strict alternating, bounds- and occupancy-checked play never reaches the
/// impossible status.
pub proof fn lemma_move_keeps_reachable(board: Seq<Mark>, i: int, first: bool)
    requires
        board.len() == 9,
        0 <= i < 9,
        board[i] == Mark::Empty,
        count_diff(board) == if first {
            0int
        } else {
            1int
        },
        status_of(board) == Status::Ongoing,
    ensures
        count_diff(board.update(i, player_mark(first))) == if !first {
            0int
        } else {
            1int
        },
        status_of(board.update(i, player_mark(first))) != Status::Impossible,
{
    let put = player_mark(first);
    lemma_count_update(board, i, put, Mark::First);
    lemma_count_update(board, i, put, Mark::Second);
}

/// The display name of a player: `"X"` for the first, `"O"` for the second.
pub fn player_name(first: bool) -> (name: String)
    ensures
        name@ == if first {
            seq!['X']
        } else {
            seq!['O']
        },
{
    proof {
        reveal_strlit("X");
        reveal_strlit("O");
    }
    assert("X"@ =~= seq!['X']);
    assert("O"@ =~= seq!['O']);
    String::from_str(if first {
        "X"
    } else {
        "O"
    })
}

} // verus!
