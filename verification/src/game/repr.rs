//! States as text: a letter for the player to move, a colon, and one
//! character for each of the 37 holes.

use super::board::{Board, Hole};
use super::gamestate::{Position, State};
use super::pieces::Piece;
use vstd::prelude::*;
use vstd::string::{StrSliceExecFns, StringExecFns};

verus! {

/// The character that stands for a hole: `b` for a black piece, `w` for a
/// white one, `.` for none.
pub open spec fn hole_char(hole: Hole) -> char {
    match hole.0 {
        Some(Piece::Black) => 'b',
        Some(Piece::White) => 'w',
        None => '.',
    }
}

/// The hole that a character stands for, if it stands for one.
pub open spec fn char_hole(c: char) -> Option<Hole> {
    if c == 'b' {
        Some(Hole(Some(Piece::Black)))
    } else if c == 'w' {
        Some(Hole(Some(Piece::White)))
    } else if c == '.' {
        Some(Hole(None))
    } else {
        None
    }
}

/// A board as text: the characters of its holes, from hole 0 to hole 36.
pub open spec fn board_repr(holes: Seq<Hole>) -> Seq<char> {
    Seq::new(37, |i: int| hole_char(holes[i]))
}

/// The holes that a text stands for: 37 characters, each of which stands
/// for a hole.
pub open spec fn parse_board(text: Seq<char>) -> Option<Seq<Hole>> {
    if text.len() == 37 && forall|i: int| 0 <= i < 37 ==> (#[trigger] char_hole(text[i])) is Some {
        Some(Seq::new(37, |i: int| char_hole(text[i])->0))
    } else {
        None
    }
}

/// A state as text: nothing for a game that is over, else `b:` or `w:`
/// for the player to move and then the board.
pub open spec fn state_repr(pos: Position) -> Seq<char> {
    if !pos.active {
        Seq::empty()
    } else if pos.current_turn == 0 {
        seq!['b', ':'] + board_repr(pos.holes)
    } else {
        seq!['w', ':'] + board_repr(pos.holes)
    }
}

/// The position that a text stands for: a game that goes on, without a
/// winner, with the player to move and the board that the text gives.
pub open spec fn parse_state(text: Seq<char>) -> Option<Position> {
    if text.len() >= 2 && (text[0] == 'b' || text[0] == 'w') && text[1] == ':' {
        match parse_board(text.subrange(2, text.len() as int)) {
            Some(holes) => Some(
                Position {
                    active: true,
                    winner: None,
                    current_turn: if text[0] == 'b' {
                        0u8
                    } else {
                        1u8
                    },
                    holes,
                },
            ),
            None => None,
        }
    } else {
        None
    }
}

/// Text and back. The text of a board stands for that board.
pub proof fn lemma_board_round_trip(holes: Seq<Hole>)
    requires
        holes.len() == 37,
    ensures
        parse_board(board_repr(holes)) == Some(holes),
{
    let text = board_repr(holes);
    assert forall|i: int| 0 <= i < 37 implies (#[trigger] char_hole(text[i])) == Some(holes[i]) by {
        match holes[i].0 {
            Some(Piece::Black) => {},
            Some(Piece::White) => {},
            None => {},
        }
    }
    assert(Seq::new(37, |i: int| char_hole(text[i])->0) =~= holes);
}

/// Text and back. The text of a game that goes on, without a winner,
/// stands for that position.
pub proof fn lemma_state_round_trip(pos: Position)
    requires
        pos.wf(),
        pos.active,
        pos.winner is None,
    ensures
        parse_state(state_repr(pos)) == Some(pos),
{
    let text = state_repr(pos);
    lemma_board_round_trip(pos.holes);
    assert(text.subrange(2, text.len() as int) =~= board_repr(pos.holes));
}

impl Board {
    /// The board as text.
    pub fn to_repr_string(&self) -> (text: String)
        ensures
            text@ == board_repr(self@),
    {
        let mut text = String::new();
        let mut i: usize = 0;
        proof {
            reveal_strlit("b");
            reveal_strlit("w");
            reveal_strlit(".");
        }
        while i < 37
            invariant
                i <= 37,
                text@.len() == i,
                forall|j: int| 0 <= j < i ==> #[trigger] text@[j] == hole_char(self@[j]),
                "b"@ == seq!['b'],
                "w"@ == seq!['w'],
                "."@ == seq!['.'],
            decreases 37 - i,
        {
            match self.board[i].0 {
                Some(Piece::Black) => text.append("b"),
                Some(Piece::White) => text.append("w"),
                None => text.append("."),
            }
            i += 1;
        }
        proof {
            assert(text@ =~= board_repr(self@));
        }
        text
    }

    /// The board that a text stands for.
    pub fn from_repr_string(s: &str) -> (board: Result<Board, ()>)
        ensures
            match parse_board(s@) {
                Some(holes) => board matches Ok(b) && b@ == holes,
                None => board is Err,
            },
    {
        assert(s@.subrange(0, s@.len() as int) =~= s@);
        parse_holes(s, 0)
    }
}

/// The board that the text from character `skip` on stands for.
fn parse_holes(s: &str, skip: usize) -> (board: Result<Board, ()>)
    requires
        skip <= s@.len(),
        skip <= 2,
    ensures
        match parse_board(s@.subrange(skip as int, s@.len() as int)) {
            Some(holes) => board matches Ok(b) && b@ == holes,
            None => board is Err,
        },
{
    let ghost text = s@.subrange(skip as int, s@.len() as int);
    let len = s.unicode_len();
    if len != 37 + skip {
        return Err(());
    }
    let mut holes = [Hole(None);37];
    let mut i: usize = 0;
    while i < 37
        invariant
            i <= 37,
            skip <= 2,
            s@.len() == 37 + skip,
            text == s@.subrange(skip as int, s@.len() as int),
            forall|j: int| 0 <= j < i ==> (#[trigger] char_hole(text[j])) == Some(holes@[j]),
        decreases 37 - i,
    {
        let c = s.get_char(i + skip);
        assert(c == text[i as int]);
        if c == 'b' {
            holes[i] = Hole(Some(Piece::Black));
        } else if c == 'w' {
            holes[i] = Hole(Some(Piece::White));
        } else if c == '.' {
            holes[i] = Hole(None);
        } else {
            assert(char_hole(text[i as int]) is None);
            return Err(());
        }
        i += 1;
    }
    proof {
        assert(holes@ =~= Seq::new(37, |i: int| char_hole(text[i])->0));
    }
    Ok(Board { board: holes })
}

impl State {
    /// The state as text; no text for a game that is over.
    pub fn to_repr_string(&self) -> (text: String)
        requires
            self.wf(),
        ensures
            text@ == state_repr(self@),
    {
        if !self.active {
            return String::new();
        }
        proof {
            reveal_strlit("b:");
            reveal_strlit("w:");
        }
        let mut text = if self.current_turn == 0 {
            String::from_str("b:")
        } else {
            String::from_str("w:")
        };
        let board = self.board.to_repr_string();
        text.append(board.as_str());
        proof {
            assert(text@ =~= state_repr(self@));
        }
        text
    }

    /// The state that a text stands for: a game that goes on, without a
    /// winner.
    pub fn from_repr_string(s: &str) -> (state: Result<State, ()>)
        ensures
            match parse_state(s@) {
                Some(pos) => state matches Ok(st) && st@ == pos && st.wf(),
                None => state is Err,
            },
    {
        if s.unicode_len() < 2 {
            return Err(());
        }
        let mover = s.get_char(0);
        if (mover != 'b' && mover != 'w') || s.get_char(1) != ':' {
            return Err(());
        }
        match parse_holes(s, 2) {
            Ok(board) => Ok(
                State {
                    active: true,
                    winner: None,
                    current_turn: if mover == 'b' {
                        0
                    } else {
                        1
                    },
                    board,
                },
            ),
            Err(e) => Err(e),
        }
    }
}

} // verus!
