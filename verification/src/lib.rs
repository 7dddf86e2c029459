//! A deterministic single-tape Turing machine: an unbounded, lazily extending
//! tape of symbol cells with a movable head, and a machine that drives state
//! transitions over it until a halting state is reached.

pub mod util;
pub mod tm_cell;
pub mod tm_tape;
pub mod tm;
