use super::pieces::{piece_of_turn, Piece};
use vstd::prelude::*;

verus! {

/// One hole of the board: empty, or holding a piece.
#[derive(Clone, Copy, Debug)]
pub struct Hole(pub Option<Piece>);

/// A step of one piece, written as (origin, destination). A straight step
/// may capture; a diagonal step may only enter an empty hole.
#[derive(Clone, Copy, Debug, PartialEq, Eq, Structural)]
pub enum Move {
    Straight(usize, usize),
    Diagonal(usize, usize),
}

use Move::{Diagonal, Straight};

impl Move {
    /// The hole the step starts from.
    pub open spec fn origin(self) -> usize {
        match self {
            Straight(o, _) => o,
            Diagonal(o, _) => o,
        }
    }

    /// The hole the step ends in.
    pub open spec fn dest(self) -> usize {
        match self {
            Straight(_, d) => d,
            Diagonal(_, d) => d,
        }
    }
}

/// The 37 holes, numbered from black's home (0) to white's home (36).
#[derive(Clone, Copy, Debug)]
pub struct Board {
    pub board: [Hole; 37],
}

/// The steps listed for a black piece standing on `from`, in table order.
/// The straight step, where there is one, comes last.
pub open spec fn black_moves(from: int) -> Seq<Move> {
    if from == 0 {
        seq![Diagonal(0, 1), Diagonal(0, 2), Straight(0, 4)]
    } else if from == 1 {
        seq![Diagonal(1, 4), Diagonal(1, 3), Straight(1, 7)]
    } else if from == 2 {
        seq![Diagonal(2, 4), Diagonal(2, 5), Straight(2, 8)]
    } else if from == 3 {
        seq![Diagonal(3, 6), Diagonal(3, 7), Straight(3, 10)]
    } else if from == 4 {
        seq![Diagonal(4, 7), Diagonal(4, 8), Straight(4, 11)]
    } else if from == 5 {
        seq![Diagonal(5, 8), Diagonal(5, 9), Straight(5, 12)]
    } else if from == 6 {
        seq![Diagonal(6, 10), Straight(6, 13)]
    } else if from == 7 {
        seq![Diagonal(7, 10), Diagonal(8, 11), Straight(9, 14)]
    } else if from == 8 {
        seq![Diagonal(8, 11), Diagonal(8, 12), Straight(8, 15)]
    } else if from == 9 {
        seq![Diagonal(9, 12), Straight(9, 16)]
    } else if from == 10 {
        seq![Diagonal(10, 13), Diagonal(10, 14), Straight(10, 17)]
    } else if from == 11 {
        seq![Diagonal(11, 14), Diagonal(11, 15), Straight(11, 18)]
    } else if from == 12 {
        seq![Diagonal(12, 15), Diagonal(12, 16), Straight(12, 19)]
    } else if from == 13 {
        seq![Diagonal(13, 17), Straight(13, 20)]
    } else if from == 14 {
        seq![Diagonal(14, 17), Diagonal(14, 18), Straight(14, 21)]
    } else if from == 15 {
        seq![Diagonal(15, 18), Diagonal(15, 19), Straight(15, 22)]
    } else if from == 16 {
        seq![Diagonal(16, 19), Straight(16, 23)]
    } else if from == 17 {
        seq![Diagonal(17, 20), Diagonal(17, 21), Straight(17, 24)]
    } else if from == 18 {
        seq![Diagonal(18, 21), Diagonal(18, 22), Straight(18, 25)]
    } else if from == 19 {
        seq![Diagonal(19, 22), Diagonal(19, 23), Straight(19, 26)]
    } else if from == 20 {
        seq![Diagonal(20, 24), Straight(20, 27)]
    } else if from == 21 {
        seq![Diagonal(21, 24), Diagonal(21, 25), Straight(21, 28)]
    } else if from == 22 {
        seq![Diagonal(22, 25), Diagonal(22, 26), Straight(22, 29)]
    } else if from == 23 {
        seq![Diagonal(23, 26), Straight(23, 30)]
    } else if from == 24 {
        seq![Diagonal(24, 27), Diagonal(24, 28), Straight(24, 31)]
    } else if from == 25 {
        seq![Diagonal(25, 28), Diagonal(25, 29), Straight(25, 32)]
    } else if from == 26 {
        seq![Diagonal(26, 29), Diagonal(26, 30), Straight(26, 33)]
    } else if from == 27 {
        seq![Diagonal(27, 31)]
    } else if from == 28 {
        seq![Diagonal(28, 31), Diagonal(28, 32), Straight(28, 34)]
    } else if from == 29 {
        seq![Diagonal(29, 32), Diagonal(29, 33), Straight(29, 35)]
    } else if from == 30 {
        seq![Diagonal(30, 33)]
    } else if from == 31 {
        seq![Diagonal(31, 34)]
    } else if from == 32 {
        seq![Diagonal(32, 34), Diagonal(32, 35), Straight(32, 36)]
    } else if from == 33 {
        seq![Diagonal(33, 35)]
    } else if from == 34 {
        seq![Diagonal(34, 36)]
    } else if from == 35 {
        seq![Diagonal(35, 36)]
    } else {
        Seq::empty()
    }
}

/// The steps listed for a white piece standing on `from`, in table order.
/// The straight step, where there is one, comes last.
pub open spec fn white_moves(from: int) -> Seq<Move> {
    if from == 1 {
        seq![Diagonal(1, 0)]
    } else if from == 2 {
        seq![Diagonal(2, 0)]
    } else if from == 3 {
        seq![Diagonal(3, 1)]
    } else if from == 4 {
        seq![Diagonal(4, 2), Diagonal(4, 1), Straight(4, 0)]
    } else if from == 5 {
        seq![Diagonal(5, 2)]
    } else if from == 6 {
        seq![Diagonal(6, 3)]
    } else if from == 7 {
        seq![Diagonal(7, 4), Diagonal(7, 3), Straight(7, 1)]
    } else if from == 8 {
        seq![Diagonal(8, 5), Diagonal(8, 4), Straight(8, 2)]
    } else if from == 9 {
        seq![Diagonal(9, 5)]
    } else if from == 10 {
        seq![Diagonal(10, 7), Diagonal(10, 6), Straight(10, 3)]
    } else if from == 11 {
        seq![Diagonal(11, 8), Diagonal(11, 7), Straight(11, 4)]
    } else if from == 12 {
        seq![Diagonal(12, 9), Diagonal(12, 8), Straight(12, 5)]
    } else if from == 13 {
        seq![Diagonal(13, 10), Straight(13, 6)]
    } else if from == 14 {
        seq![Diagonal(14, 11), Diagonal(14, 10), Straight(14, 7)]
    } else if from == 15 {
        seq![Diagonal(15, 12), Diagonal(15, 11), Straight(15, 8)]
    } else if from == 16 {
        seq![Diagonal(16, 12), Straight(16, 9)]
    } else if from == 17 {
        seq![Diagonal(17, 14), Diagonal(17, 13), Straight(17, 10)]
    } else if from == 18 {
        seq![Diagonal(18, 15), Diagonal(18, 14), Straight(18, 11)]
    } else if from == 19 {
        seq![Diagonal(19, 16), Diagonal(19, 15), Straight(19, 12)]
    } else if from == 20 {
        seq![Diagonal(20, 17), Straight(20, 13)]
    } else if from == 21 {
        seq![Diagonal(21, 18), Diagonal(21, 17), Straight(21, 14)]
    } else if from == 22 {
        seq![Diagonal(22, 19), Diagonal(22, 18), Straight(22, 15)]
    } else if from == 23 {
        seq![Diagonal(23, 19), Straight(23, 16)]
    } else if from == 24 {
        seq![Diagonal(24, 21), Diagonal(24, 20), Straight(24, 17)]
    } else if from == 25 {
        seq![Diagonal(25, 22), Diagonal(25, 21), Straight(25, 18)]
    } else if from == 26 {
        seq![Diagonal(26, 23), Diagonal(26, 22), Straight(26, 19)]
    } else if from == 27 {
        seq![Diagonal(27, 24), Straight(27, 20)]
    } else if from == 28 {
        seq![Diagonal(28, 25), Diagonal(28, 24), Straight(28, 21)]
    } else if from == 29 {
        seq![Diagonal(29, 26), Diagonal(29, 25), Straight(29, 22)]
    } else if from == 30 {
        seq![Diagonal(30, 26), Straight(30, 23)]
    } else if from == 31 {
        seq![Diagonal(31, 28), Diagonal(31, 27), Straight(31, 24)]
    } else if from == 32 {
        seq![Diagonal(32, 29), Diagonal(32, 28), Straight(32, 25)]
    } else if from == 33 {
        seq![Diagonal(33, 30), Diagonal(33, 29), Straight(33, 26)]
    } else if from == 34 {
        seq![Diagonal(34, 32), Diagonal(34, 31), Straight(34, 28)]
    } else if from == 35 {
        seq![Diagonal(35, 33), Diagonal(35, 32), Straight(35, 29)]
    } else if from == 36 {
        seq![Diagonal(36, 35), Diagonal(36, 34), Straight(36, 32)]
    } else {
        Seq::empty()
    }
}

/// The steps listed for a piece of player `turn` standing on `from`.
pub open spec fn table_moves(turn: u8, from: int) -> Seq<Move> {
    if turn == 0 {
        black_moves(from)
    } else {
        white_moves(from)
    }
}

/// The first step in `moves`, from position `start` on, that ends in `to`.
pub open spec fn first_move_to(moves: Seq<Move>, to: usize, start: int) -> Option<Move>
    decreases moves.len() - start,
{
    if start < 0 || start >= moves.len() {
        None
    } else if moves[start].dest() == to {
        Some(moves[start])
    } else {
        first_move_to(moves, to, start + 1)
    }
}

/// The holes below `n` that hold a piece of colour `piece`, in rising order.
pub open spec fn pieces_below(holes: Seq<Hole>, piece: Piece, n: int) -> Seq<usize>
    decreases n,
{
    if n <= 0 {
        Seq::empty()
    } else if holes[n - 1].0 == Some(piece) {
        pieces_below(holes, piece, n - 1).push((n - 1) as usize)
    } else {
        pieces_below(holes, piece, n - 1)
    }
}

/// The holes that hold a piece of player `turn`, in rising order.
pub open spec fn pieces_of(holes: Seq<Hole>, turn: u8) -> Seq<usize> {
    pieces_below(holes, piece_of_turn(turn), 37)
}

/// The table rows of the first `n` holes of `origins`, one after the other.
pub open spec fn moves_from(turn: u8, origins: Seq<usize>, n: int) -> Seq<Move>
    decreases n,
{
    if n <= 0 {
        Seq::empty()
    } else {
        moves_from(turn, origins, n - 1) + table_moves(turn, origins[n - 1] as int)
    }
}

/// Every listed step of every piece of player `turn`, piece by piece in
/// rising order of the holes. Whether a step is legal on these holes is not
/// looked at here.
pub open spec fn all_moves(holes: Seq<Hole>, turn: u8) -> Seq<Move> {
    moves_from(turn, pieces_of(holes, turn), pieces_of(holes, turn).len() as int)
}

/// The listed step from `from` to `to` for player `turn`: the first step of
/// that row that ends in `to`.
pub open spec fn listed_move(from: usize, to: usize, turn: u8) -> Option<Move> {
    first_move_to(table_moves(turn, from as int), to, 0)
}

/// The hole straight ahead of `index` for player `turn`: the destination of
/// the row's last step, where that step is a straight one.
pub open spec fn straight_hex(turn: u8, index: int) -> Option<usize> {
    let row = table_moves(turn, index);
    if row.len() > 0 && row.last() is Straight {
        Some(row.last().dest())
    } else {
        None
    }
}

/// Every listed step leaves from and arrives at a hole of the board.
pub proof fn lemma_table_moves_on_board(turn: u8, from: int, i: int)
    requires
        0 <= i < table_moves(turn, from).len(),
    ensures
        0 <= from < 37,
        table_moves(turn, from)[i].origin() < 37,
        table_moves(turn, from)[i].dest() < 37,
        table_moves(turn, from).len() <= 3,
{
}

/// Every hole in `pieces_below` lies below `n` and holds the colour asked for.
pub proof fn lemma_pieces_below(holes: Seq<Hole>, piece: Piece, n: int)
    requires
        0 <= n <= holes.len(),
        holes.len() <= usize::MAX,
    ensures
        pieces_below(holes, piece, n).len() <= n,
        forall|k: int|
            0 <= k < pieces_below(holes, piece, n).len() ==> {
                let p = #[trigger] pieces_below(holes, piece, n)[k];
                p < n && holes[p as int].0 == Some(piece)
            },
    decreases n,
{
    if n > 0 {
        lemma_pieces_below(holes, piece, n - 1);
        let prev = pieces_below(holes, piece, n - 1);
        let cur = pieces_below(holes, piece, n);
        assert forall|k: int| 0 <= k < cur.len() implies {
            let p = #[trigger] cur[k];
            p < n && holes[p as int].0 == Some(piece)
        } by {
            if k < prev.len() {
                assert(cur[k] == prev[k]);
            }
        }
    }
}

fn black_moves_at(from: usize) -> (moves: Vec<Move>)
    ensures
        moves@ == black_moves(from as int),
{
    if from == 0 {
        let moves = vec![Diagonal(0, 1), Diagonal(0, 2), Straight(0, 4)];
        assert(moves@ =~= black_moves(from as int));
        moves
    } else if from == 1 {
        let moves = vec![Diagonal(1, 4), Diagonal(1, 3), Straight(1, 7)];
        assert(moves@ =~= black_moves(from as int));
        moves
    } else if from == 2 {
        let moves = vec![Diagonal(2, 4), Diagonal(2, 5), Straight(2, 8)];
        assert(moves@ =~= black_moves(from as int));
        moves
    } else if from == 3 {
        let moves = vec![Diagonal(3, 6), Diagonal(3, 7), Straight(3, 10)];
        assert(moves@ =~= black_moves(from as int));
        moves
    } else if from == 4 {
        let moves = vec![Diagonal(4, 7), Diagonal(4, 8), Straight(4, 11)];
        assert(moves@ =~= black_moves(from as int));
        moves
    } else if from == 5 {
        let moves = vec![Diagonal(5, 8), Diagonal(5, 9), Straight(5, 12)];
        assert(moves@ =~= black_moves(from as int));
        moves
    } else if from == 6 {
        let moves = vec![Diagonal(6, 10), Straight(6, 13)];
        assert(moves@ =~= black_moves(from as int));
        moves
    } else if from == 7 {
        let moves = vec![Diagonal(7, 10), Diagonal(8, 11), Straight(9, 14)];
        assert(moves@ =~= black_moves(from as int));
        moves
    } else if from == 8 {
        let moves = vec![Diagonal(8, 11), Diagonal(8, 12), Straight(8, 15)];
        assert(moves@ =~= black_moves(from as int));
        moves
    } else if from == 9 {
        let moves = vec![Diagonal(9, 12), Straight(9, 16)];
        assert(moves@ =~= black_moves(from as int));
        moves
    } else if from == 10 {
        let moves = vec![Diagonal(10, 13), Diagonal(10, 14), Straight(10, 17)];
        assert(moves@ =~= black_moves(from as int));
        moves
    } else if from == 11 {
        let moves = vec![Diagonal(11, 14), Diagonal(11, 15), Straight(11, 18)];
        assert(moves@ =~= black_moves(from as int));
        moves
    } else if from == 12 {
        let moves = vec![Diagonal(12, 15), Diagonal(12, 16), Straight(12, 19)];
        assert(moves@ =~= black_moves(from as int));
        moves
    } else if from == 13 {
        let moves = vec![Diagonal(13, 17), Straight(13, 20)];
        assert(moves@ =~= black_moves(from as int));
        moves
    } else if from == 14 {
        let moves = vec![Diagonal(14, 17), Diagonal(14, 18), Straight(14, 21)];
        assert(moves@ =~= black_moves(from as int));
        moves
    } else if from == 15 {
        let moves = vec![Diagonal(15, 18), Diagonal(15, 19), Straight(15, 22)];
        assert(moves@ =~= black_moves(from as int));
        moves
    } else if from == 16 {
        let moves = vec![Diagonal(16, 19), Straight(16, 23)];
        assert(moves@ =~= black_moves(from as int));
        moves
    } else if from == 17 {
        let moves = vec![Diagonal(17, 20), Diagonal(17, 21), Straight(17, 24)];
        assert(moves@ =~= black_moves(from as int));
        moves
    } else if from == 18 {
        let moves = vec![Diagonal(18, 21), Diagonal(18, 22), Straight(18, 25)];
        assert(moves@ =~= black_moves(from as int));
        moves
    } else if from == 19 {
        let moves = vec![Diagonal(19, 22), Diagonal(19, 23), Straight(19, 26)];
        assert(moves@ =~= black_moves(from as int));
        moves
    } else if from == 20 {
        let moves = vec![Diagonal(20, 24), Straight(20, 27)];
        assert(moves@ =~= black_moves(from as int));
        moves
    } else if from == 21 {
        let moves = vec![Diagonal(21, 24), Diagonal(21, 25), Straight(21, 28)];
        assert(moves@ =~= black_moves(from as int));
        moves
    } else if from == 22 {
        let moves = vec![Diagonal(22, 25), Diagonal(22, 26), Straight(22, 29)];
        assert(moves@ =~= black_moves(from as int));
        moves
    } else if from == 23 {
        let moves = vec![Diagonal(23, 26), Straight(23, 30)];
        assert(moves@ =~= black_moves(from as int));
        moves
    } else if from == 24 {
        let moves = vec![Diagonal(24, 27), Diagonal(24, 28), Straight(24, 31)];
        assert(moves@ =~= black_moves(from as int));
        moves
    } else if from == 25 {
        let moves = vec![Diagonal(25, 28), Diagonal(25, 29), Straight(25, 32)];
        assert(moves@ =~= black_moves(from as int));
        moves
    } else if from == 26 {
        let moves = vec![Diagonal(26, 29), Diagonal(26, 30), Straight(26, 33)];
        assert(moves@ =~= black_moves(from as int));
        moves
    } else if from == 27 {
        let moves = vec![Diagonal(27, 31)];
        assert(moves@ =~= black_moves(from as int));
        moves
    } else if from == 28 {
        let moves = vec![Diagonal(28, 31), Diagonal(28, 32), Straight(28, 34)];
        assert(moves@ =~= black_moves(from as int));
        moves
    } else if from == 29 {
        let moves = vec![Diagonal(29, 32), Diagonal(29, 33), Straight(29, 35)];
        assert(moves@ =~= black_moves(from as int));
        moves
    } else if from == 30 {
        let moves = vec![Diagonal(30, 33)];
        assert(moves@ =~= black_moves(from as int));
        moves
    } else if from == 31 {
        let moves = vec![Diagonal(31, 34)];
        assert(moves@ =~= black_moves(from as int));
        moves
    } else if from == 32 {
        let moves = vec![Diagonal(32, 34), Diagonal(32, 35), Straight(32, 36)];
        assert(moves@ =~= black_moves(from as int));
        moves
    } else if from == 33 {
        let moves = vec![Diagonal(33, 35)];
        assert(moves@ =~= black_moves(from as int));
        moves
    } else if from == 34 {
        let moves = vec![Diagonal(34, 36)];
        assert(moves@ =~= black_moves(from as int));
        moves
    } else if from == 35 {
        let moves = vec![Diagonal(35, 36)];
        assert(moves@ =~= black_moves(from as int));
        moves
    } else {
        Vec::new()
    }
}

fn white_moves_at(from: usize) -> (moves: Vec<Move>)
    ensures
        moves@ == white_moves(from as int),
{
    if from == 1 {
        let moves = vec![Diagonal(1, 0)];
        assert(moves@ =~= white_moves(from as int));
        moves
    } else if from == 2 {
        let moves = vec![Diagonal(2, 0)];
        assert(moves@ =~= white_moves(from as int));
        moves
    } else if from == 3 {
        let moves = vec![Diagonal(3, 1)];
        assert(moves@ =~= white_moves(from as int));
        moves
    } else if from == 4 {
        let moves = vec![Diagonal(4, 2), Diagonal(4, 1), Straight(4, 0)];
        assert(moves@ =~= white_moves(from as int));
        moves
    } else if from == 5 {
        let moves = vec![Diagonal(5, 2)];
        assert(moves@ =~= white_moves(from as int));
        moves
    } else if from == 6 {
        let moves = vec![Diagonal(6, 3)];
        assert(moves@ =~= white_moves(from as int));
        moves
    } else if from == 7 {
        let moves = vec![Diagonal(7, 4), Diagonal(7, 3), Straight(7, 1)];
        assert(moves@ =~= white_moves(from as int));
        moves
    } else if from == 8 {
        let moves = vec![Diagonal(8, 5), Diagonal(8, 4), Straight(8, 2)];
        assert(moves@ =~= white_moves(from as int));
        moves
    } else if from == 9 {
        let moves = vec![Diagonal(9, 5)];
        assert(moves@ =~= white_moves(from as int));
        moves
    } else if from == 10 {
        let moves = vec![Diagonal(10, 7), Diagonal(10, 6), Straight(10, 3)];
        assert(moves@ =~= white_moves(from as int));
        moves
    } else if from == 11 {
        let moves = vec![Diagonal(11, 8), Diagonal(11, 7), Straight(11, 4)];
        assert(moves@ =~= white_moves(from as int));
        moves
    } else if from == 12 {
        let moves = vec![Diagonal(12, 9), Diagonal(12, 8), Straight(12, 5)];
        assert(moves@ =~= white_moves(from as int));
        moves
    } else if from == 13 {
        let moves = vec![Diagonal(13, 10), Straight(13, 6)];
        assert(moves@ =~= white_moves(from as int));
        moves
    } else if from == 14 {
        let moves = vec![Diagonal(14, 11), Diagonal(14, 10), Straight(14, 7)];
        assert(moves@ =~= white_moves(from as int));
        moves
    } else if from == 15 {
        let moves = vec![Diagonal(15, 12), Diagonal(15, 11), Straight(15, 8)];
        assert(moves@ =~= white_moves(from as int));
        moves
    } else if from == 16 {
        let moves = vec![Diagonal(16, 12), Straight(16, 9)];
        assert(moves@ =~= white_moves(from as int));
        moves
    } else if from == 17 {
        let moves = vec![Diagonal(17, 14), Diagonal(17, 13), Straight(17, 10)];
        assert(moves@ =~= white_moves(from as int));
        moves
    } else if from == 18 {
        let moves = vec![Diagonal(18, 15), Diagonal(18, 14), Straight(18, 11)];
        assert(moves@ =~= white_moves(from as int));
        moves
    } else if from == 19 {
        let moves = vec![Diagonal(19, 16), Diagonal(19, 15), Straight(19, 12)];
        assert(moves@ =~= white_moves(from as int));
        moves
    } else if from == 20 {
        let moves = vec![Diagonal(20, 17), Straight(20, 13)];
        assert(moves@ =~= white_moves(from as int));
        moves
    } else if from == 21 {
        let moves = vec![Diagonal(21, 18), Diagonal(21, 17), Straight(21, 14)];
        assert(moves@ =~= white_moves(from as int));
        moves
    } else if from == 22 {
        let moves = vec![Diagonal(22, 19), Diagonal(22, 18), Straight(22, 15)];
        assert(moves@ =~= white_moves(from as int));
        moves
    } else if from == 23 {
        let moves = vec![Diagonal(23, 19), Straight(23, 16)];
        assert(moves@ =~= white_moves(from as int));
        moves
    } else if from == 24 {
        let moves = vec![Diagonal(24, 21), Diagonal(24, 20), Straight(24, 17)];
        assert(moves@ =~= white_moves(from as int));
        moves
    } else if from == 25 {
        let moves = vec![Diagonal(25, 22), Diagonal(25, 21), Straight(25, 18)];
        assert(moves@ =~= white_moves(from as int));
        moves
    } else if from == 26 {
        let moves = vec![Diagonal(26, 23), Diagonal(26, 22), Straight(26, 19)];
        assert(moves@ =~= white_moves(from as int));
        moves
    } else if from == 27 {
        let moves = vec![Diagonal(27, 24), Straight(27, 20)];
        assert(moves@ =~= white_moves(from as int));
        moves
    } else if from == 28 {
        let moves = vec![Diagonal(28, 25), Diagonal(28, 24), Straight(28, 21)];
        assert(moves@ =~= white_moves(from as int));
        moves
    } else if from == 29 {
        let moves = vec![Diagonal(29, 26), Diagonal(29, 25), Straight(29, 22)];
        assert(moves@ =~= white_moves(from as int));
        moves
    } else if from == 30 {
        let moves = vec![Diagonal(30, 26), Straight(30, 23)];
        assert(moves@ =~= white_moves(from as int));
        moves
    } else if from == 31 {
        let moves = vec![Diagonal(31, 28), Diagonal(31, 27), Straight(31, 24)];
        assert(moves@ =~= white_moves(from as int));
        moves
    } else if from == 32 {
        let moves = vec![Diagonal(32, 29), Diagonal(32, 28), Straight(32, 25)];
        assert(moves@ =~= white_moves(from as int));
        moves
    } else if from == 33 {
        let moves = vec![Diagonal(33, 30), Diagonal(33, 29), Straight(33, 26)];
        assert(moves@ =~= white_moves(from as int));
        moves
    } else if from == 34 {
        let moves = vec![Diagonal(34, 32), Diagonal(34, 31), Straight(34, 28)];
        assert(moves@ =~= white_moves(from as int));
        moves
    } else if from == 35 {
        let moves = vec![Diagonal(35, 33), Diagonal(35, 32), Straight(35, 29)];
        assert(moves@ =~= white_moves(from as int));
        moves
    } else if from == 36 {
        let moves = vec![Diagonal(36, 35), Diagonal(36, 34), Straight(36, 32)];
        assert(moves@ =~= white_moves(from as int));
        moves
    } else {
        Vec::new()
    }
}

fn table_moves_at(turn: u8, from: usize) -> (moves: Vec<Move>)
    requires
        turn <= 1,
    ensures
        moves@ == table_moves(turn, from as int),
{
    if turn == 0 {
        black_moves_at(from)
    } else {
        white_moves_at(from)
    }
}

impl View for Board {
    type V = Seq<Hole>;

    /// The holes as a sequence of length 37.
    open spec fn view(&self) -> Seq<Hole> {
        self.board@
    }
}

impl Default for Board {
    fn default() -> (b: Board)
        ensures
            b.is_opening(),
    {
        Board::new()
    }
}

impl Board {
    /// The opening position: black on holes 0 to 9, white on 27 to 36, the
    /// seventeen holes between them empty.
    pub open spec fn is_opening(self) -> bool {
        &&& forall|i: int| 0 <= i < 10 ==> (#[trigger] self@[i]).0 == Some(Piece::Black)
        &&& forall|i: int| 10 <= i < 27 ==> (#[trigger] self@[i]).0 == None::<Piece>
        &&& forall|i: int| 27 <= i < 37 ==> (#[trigger] self@[i]).0 == Some(Piece::White)
    }

    pub fn new() -> (b: Board)
        ensures
            b.is_opening(),
    {
        let mut pieces = [Hole(None);37];
        let mut i: usize = 0;
        while i < 37
            invariant
                i <= 37,
                forall|j: int| 0 <= j < i && j < 10 ==> (#[trigger] pieces[j]).0 == Some(Piece::Black),
                forall|j: int| 10 <= j < i && j < 27 ==> (#[trigger] pieces[j]).0 == None::<Piece>,
                forall|j: int| 27 <= j < i ==> (#[trigger] pieces[j]).0 == Some(Piece::White),
            decreases 37 - i,
        {
            pieces[i] = if i < 10 {
                Hole(Some(Piece::Black))
            } else if i > 26 {
                Hole(Some(Piece::White))
            } else {
                Hole(None)
            };
            i += 1;
        }
        Board { board: pieces }
    }

    /// The listed step from `from` to `to` for player `turn`, if the table
    /// has one.
    pub fn possible_move(&self, from: &usize, to: &usize, turn: u8) -> (found: Option<Move>)
        requires
            turn <= 1,
        ensures
            found == listed_move(*from, *to, turn),
    {
        let row = table_moves_at(turn, *from);
        let mut i: usize = 0;
        while i < row.len()
            invariant
                i <= row.len(),
                row@ == table_moves(turn, *from as int),
                first_move_to(row@, *to, 0) == first_move_to(row@, *to, i as int),
            decreases row.len() - i,
        {
            let m = row[i];
            let d = match m {
                Straight(_, d) => d,
                Diagonal(_, d) => d,
            };
            if d == *to {
                return Some(m);
            }
            i += 1;
        }
        None
    }

    /// The holes that hold a piece of player `turn`, in rising order.
    pub fn current_players_pieces(&self, turn: u8) -> (pieces: Vec<usize>)
        requires
            turn <= 1,
        ensures
            pieces@ == pieces_of(self@, turn),
            pieces@.len() <= 37,
            forall|k: int| 0 <= k < pieces@.len() ==> #[trigger] pieces@[k] < 37,
    {
        let piece_type = if turn == 0 {
            Piece::Black
        } else {
            Piece::White
        };
        let mut pieces: Vec<usize> = Vec::new();
        let mut i: usize = 0;
        while i < 37
            invariant
                i <= 37,
                piece_type == piece_of_turn(turn),
                pieces@ == pieces_below(self.board@, piece_type, i as int),
            decreases 37 - i,
        {
            match self.board[i].0 {
                Some(p) => {
                    if p == piece_type {
                        pieces.push(i);
                    }
                },
                None => {},
            }
            i += 1;
        }
        proof {
            lemma_pieces_below(self.board@, piece_type, 37);
        }
        pieces
    }

    /// Every listed step of every piece of player `turn`.
    pub fn all_valid_moves(&self, turn: u8) -> (moves: Vec<Move>)
        requires
            turn <= 1,
        ensures
            moves@ == all_moves(self@, turn),
    {
        let current_pieces = self.current_players_pieces(turn);
        let mut moves: Vec<Move> = Vec::new();
        let mut i: usize = 0;
        while i < current_pieces.len()
            invariant
                turn <= 1,
                i <= current_pieces.len(),
                moves@ == moves_from(turn, current_pieces@, i as int),
            decreases current_pieces.len() - i,
        {
            let mut row = table_moves_at(turn, current_pieces[i]);
            moves.append(&mut row);
            i += 1;
        }
        moves
    }

    /// The whole table of player `turn`: row `i` lists the steps of a piece
    /// standing on hole `i`.
    pub fn get_moves_of_piece(&self, turn: u8) -> (table: Vec<Vec<Move>>)
        requires
            turn <= 1,
        ensures
            table@.len() == 37,
            forall|i: int| 0 <= i < 37 ==> (#[trigger] table@[i])@ == table_moves(turn, i),
    {
        let mut table: Vec<Vec<Move>> = Vec::new();
        let mut i: usize = 0;
        while i < 37
            invariant
                turn <= 1,
                i <= 37,
                table@.len() == i,
                forall|j: int| 0 <= j < i ==> (#[trigger] table@[j])@ == table_moves(turn, j),
            decreases 37 - i,
        {
            table.push(table_moves_at(turn, i));
            i += 1;
        }
        table
    }

    /// The hole straight ahead of `index` for player `turn`, if the table
    /// lists a straight step there.
    pub fn get_straight_hex(&self, turn: u8, index: usize) -> (hex: Option<usize>)
        requires
            turn <= 1,
            index < 37,
        ensures
            hex == straight_hex(turn, index as int),
            hex matches Some(h) ==> h < 37,
    {
        let row = table_moves_at(turn, index);
        if row.len() == 0 {
            return None;
        }
        match row[row.len() - 1] {
            Straight(_, dest) => Some(dest),
            Diagonal(_, _) => None,
        }
    }
}

} // verus!
