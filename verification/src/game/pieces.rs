use vstd::prelude::*;

verus! {

/// The colour of a piece. Black moves first and plays from hole 0 towards
/// hole 36; white plays the other way.
#[derive(Clone, Copy, Debug, PartialEq, Eq, Structural)]
pub enum Piece {
    Black,
    White,
}

/// The colour that the player with the given index moves.
pub open spec fn piece_of_turn(turn: u8) -> Piece {
    if turn == 0 {
        Piece::Black
    } else {
        Piece::White
    }
}

} // verus!
