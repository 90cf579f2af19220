//! Command input: a character-driven automaton that turns one line of text
//! into a command, and an in-memory line source built on it.
use vstd::prelude::*;

use crate::board::Position;

verus! {

/// A parsed user intent: place a mark at `(row, col)`, or stop the game.
#[derive(Copy, Clone, Debug, PartialEq, Eq)]
pub enum Command {
    Turn(Position),
    Stop,
}

/// The automaton's states: before anything, reading the row number, reading
/// the column number.
#[derive(Copy, Clone, Debug, PartialEq, Eq, Structural)]
pub enum ParserState {
    Start,
    CoordX,
    CoordY,
}

/// A decimal digit.
pub open spec fn is_digit(c: char) -> bool {
    '0' as int <= c as int && c as int <= '9' as int
}

/// The value of a decimal digit.
pub open spec fn digit_val(c: char) -> int {
    c as int - '0' as int
}

/// The parsing automaton, one character at a time. `row` is the stored row
/// coordinate, `acc` the number being accumulated. A digit extends the
/// accumulator in base 10 (rejecting a coordinate the machine cannot hold);
/// `s` stops immediately; `,` moves from row to column; a line terminator
/// after the column produces the turn; anything else, or running out of
/// input, produces nothing.
pub open spec fn run_parser(s: Seq<char>, state: ParserState, row: int, acc: int) -> Option<
    Command,
>
    decreases s.len(),
{
    if s.len() == 0 {
        None
    } else {
        let c = s[0];
        let rest = s.skip(1);
        match state {
            ParserState::Start => {
                if is_digit(c) {
                    run_parser(rest, ParserState::CoordX, row, digit_val(c))
                } else if c == 's' {
                    Some(Command::Stop)
                } else {
                    None
                }
            },
            ParserState::CoordX => {
                if is_digit(c) {
                    if 10 * acc + digit_val(c) > usize::MAX as int {
                        None
                    } else {
                        run_parser(rest, ParserState::CoordX, row, 10 * acc + digit_val(c))
                    }
                } else if c == ',' {
                    run_parser(rest, ParserState::CoordY, acc, 0)
                } else {
                    None
                }
            },
            ParserState::CoordY => {
                if is_digit(c) {
                    if 10 * acc + digit_val(c) > usize::MAX as int {
                        None
                    } else {
                        run_parser(rest, ParserState::CoordY, row, 10 * acc + digit_val(c))
                    }
                } else if c == '\n' {
                    Some(Command::Turn((row as usize, acc as usize)))
                } else {
                    None
                }
            },
        }
    }
}

/// What one line of input means, if anything.
pub open spec fn command_of(s: Seq<char>) -> Option<Command> {
    run_parser(s, ParserState::Start, 0, 0)
}

/// Converts one line of text into a command: `<row>,<col>` ended by a line
/// terminator is a turn (coordinates unbounded at this level; range checks
/// are the game's job), a leading `s` is a stop, anything else is nothing.
pub fn parse(buf: &String) -> (command: Option<Command>)
    ensures
        command == command_of(buf@),
{
    let s = buf.as_str();
    let n = s.unicode_len();
    let mut state = ParserState::Start;
    let mut number: usize = 0;
    let mut row: usize = 0;
    let mut i: usize = 0;
    proof {
        assert(s@.skip(0) =~= s@);
    }
    while i < n
        invariant
            n == s@.len(),
            s@ == buf@,
            i <= n,
            command_of(buf@) == run_parser(s@.skip(i as int), state, row as int, number as int),
        decreases n - i,
    {
        let c = s.get_char(i);
        proof {
            assert(s@.skip(i as int)[0] == s@[i as int]);
            assert(s@.skip(i as int).skip(1) =~= s@.skip(i as int + 1));
        }
        match state {
            ParserState::Start => {
                if c as u32 >= '0' as u32 && c as u32 <= '9' as u32 {
                    state = ParserState::CoordX;
                    number = (c as u32 - '0' as u32) as usize;
                } else if c == 's' {
                    return Some(Command::Stop);
                } else {
                    return None;
                }
            },
            ParserState::CoordX => {
                if c as u32 >= '0' as u32 && c as u32 <= '9' as u32 {
                    let d = (c as u32 - '0' as u32) as usize;
                    match number.checked_mul(10) {
                        Some(scaled) => match scaled.checked_add(d) {
                            Some(extended) => {
                                number = extended;
                            },
                            None => {
                                return None;
                            },
                        },
                        None => {
                            return None;
                        },
                    }
                } else if c == ',' {
                    row = number;
                    number = 0;
                    state = ParserState::CoordY;
                } else {
                    return None;
                }
            },
            ParserState::CoordY => {
                if c as u32 >= '0' as u32 && c as u32 <= '9' as u32 {
                    let d = (c as u32 - '0' as u32) as usize;
                    match number.checked_mul(10) {
                        Some(scaled) => match scaled.checked_add(d) {
                            Some(extended) => {
                                number = extended;
                            },
                            None => {
                                return None;
                            },
                        },
                        None => {
                            return None;
                        },
                    }
                } else if c == '\n' {
                    return Some(Command::Turn((row, number)));
                } else {
                    return None;
                }
            },
        }
        i = i + 1;
    }
    proof {
        assert(s@.skip(n as int) =~= Seq::<char>::empty());
    }
    None
}

/// A source of commands, read one line at a time.
pub trait UserInput {
    fn read(&mut self) -> Option<Command>;
}

/// How many characters the next line takes: everything up to and including
/// the first line terminator, or all of it when there is none.
pub open spec fn line_len(s: Seq<char>) -> int
    decreases s.len(),
{
    if s.len() == 0 {
        0
    } else if s[0] == '\n' {
        1
    } else {
        1 + line_len(s.skip(1))
    }
}

/// The line length is where the first line terminator sits (plus one), or
/// the whole input when none occurs.
proof fn lemma_line_len_at(s: Seq<char>, e: int)
    requires
        0 <= e <= s.len(),
        forall|k: int| 0 <= k < e ==> s[k] != '\n',
        e < s.len() ==> s[e] == '\n',
    ensures
        line_len(s) == if e < s.len() {
            e + 1
        } else {
            e
        },
    decreases s.len(),
{
    if s.len() == 0 {
    } else if s[0] == '\n' {
        assert(e == 0);
    } else {
        lemma_line_len_at(s.skip(1), e - 1);
    }
}

/// An in-memory command source: a text held whole, handed out line by line.
/// Its view is the text not yet consumed.
pub struct BufferedInput {
    buffer: String,
    pos: usize,
}

impl View for BufferedInput {
    type V = Seq<char>;

    closed spec fn view(&self) -> Seq<char> {
        self.buffer@.skip(self.pos as int)
    }
}

impl BufferedInput {
    #[verifier::type_invariant]
    spec fn inv(&self) -> bool {
        self.pos <= self.buffer@.len()
    }

    /// A source that will hand out the lines of `buffer`.
    pub fn new(buffer: String) -> (input: BufferedInput)
        ensures
            input@ == buffer@,
    {
        let input = BufferedInput { buffer, pos: 0 };
        proof {
            assert(input@ =~= input.buffer@);
        }
        input
    }

    /// Hands out the next line, terminator included; at the end of the text
    /// the line is empty. An in-memory read cannot fail, so this always
    /// produces a line.
    pub fn read_from_buffer(&mut self) -> (line: Option<String>)
        ensures
            line matches Some(text) && text@ == old(self)@.take(line_len(old(self)@)),
            final(self)@ == old(self)@.skip(line_len(old(self)@)),
    {
        proof {
            use_type_invariant(&*self);
        }
        let len = self.buffer.as_str().unicode_len();
        let mut end = self.pos;
        let mut seen: bool = false;
        while end < len && !seen
            invariant
                len == self.buffer@.len(),
                self.pos <= end <= len,
                !seen ==> forall|k: int| self.pos <= k < end ==> self.buffer@[k] != '\n',
                seen ==> self.pos < end && self.buffer@[end - 1] == '\n' && forall|k: int|
                    self.pos <= k < end - 1 ==> self.buffer@[k] != '\n',
            decreases len - end + if seen {
                0int
            } else {
                1int
            },
        {
            if self.buffer.as_str().get_char(end) == '\n' {
                seen = true;
            }
            end = end + 1;
        }
        proof {
            let consumed = old(self)@;
            if seen {
                lemma_line_len_at(consumed, end - 1 - self.pos);
            } else {
                lemma_line_len_at(consumed, end - self.pos);
            }
            assert(line_len(consumed) == end - self.pos);
        }
        let text = String::from_str(self.buffer.as_str().substring_char(self.pos, end));
        let ghost remembered = self@;
        self.pos = end;
        proof {
            assert(text@ =~= remembered.take(line_len(remembered)));
            assert(self@ =~= remembered.skip(line_len(remembered)));
        }
        Some(text)
    }
}

impl UserInput for BufferedInput {
    /// Consumes the next line and hands out what it means.
    fn read(&mut self) -> (command: Option<Command>)
        ensures
            command == command_of(old(self)@.take(line_len(old(self)@))),
            final(self)@ == old(self)@.skip(line_len(old(self)@)),
    {
        match self.read_from_buffer() {
            Some(text) => parse(&text),
            None => None,
        }
    }
}

} // verus!
