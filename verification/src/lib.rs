//! A verified 3x3 tic-tac-toe engine: the board with its status evaluation
//! (win, tie, ongoing, or a state impossible under alternating play), the
//! command-line parsing automaton, the turn-sequencing game state, and the
//! randomized self-play used to exercise the evaluator.
pub mod board;
pub mod game;
pub mod input;
pub mod simulator;
