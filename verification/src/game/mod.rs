pub mod board;
pub mod gamestate;
pub mod pieces;
pub mod player;
pub mod repr;

use gamestate::State;
use vstd::prelude::*;

verus! {

/// A game at its opening, black to move.
pub fn new_game() -> (state: State)
    ensures
        state.active,
        state.winner is None,
        state.current_turn == 0,
        state.board.is_opening(),
        state.wf(),
{
    State::new()
}

} // verus!
