//! The engine host's decisions: what the worker does with each command.

use vstd::prelude::*;
use crate::chess_structs::Board;
use crate::minimax::{best_successor, search, INITIAL_DEPTH};

verus! {

/// A command to the engine worker.
pub enum Command {
    /// Search the position and emit the chosen successor.
    Execute(Board),
    /// Stop the worker.
    Stop,
}

/// What the worker does with `cmd`: `None` to stop, else the result to emit.
pub fn handle_command(cmd: &Command) -> (r: Option<Option<Board>>)
    ensures
        match cmd {
            Command::Stop => r.is_none(),
            Command::Execute(b) => r == Some(best_successor(*b, INITIAL_DEPTH as int)),
        },
{
    match cmd {
        Command::Stop => None,
        Command::Execute(board) => Some(search(board)),
    }
}

} // verus!
