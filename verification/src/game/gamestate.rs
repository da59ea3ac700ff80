use super::board::{
    all_moves, first_move_to, listed_move, moves_from, pieces_of, table_moves, Board, Hole, Move,
};
use crate::ai::location_maps::BLACK_PROXIMITY_ROW;
use super::pieces::{piece_of_turn, Piece};
use vstd::prelude::*;

verus! {

/// What `can_move` answers for a step onto a piece of the mover's own colour.
pub open spec fn err_own_piece() -> &'static str {
    "can't occupy the same space as another one of your pieces"
}

/// What `can_move` answers for a diagonal step onto an opposing piece.
pub open spec fn err_head_on() -> &'static str {
    "must capture head-on"
}

/// What `can_move` answers where the table lists no such step.
pub open spec fn err_not_listed() -> &'static str {
    "not a legal move for this piece or it's not your turn"
}

/// What `can_move` answers where the origin holds no piece of the mover.
pub open spec fn err_no_piece() -> &'static str {
    "Not a legal move. No pieces at the starting space specified"
}

/// What `move_piece` answers where a capture was needed and not allowed.
pub open spec fn err_no_capture() -> &'static str {
    "you don't have permission to capture this piece"
}

/// Whether player `turn` may step from `from` to `to` on these holes:
/// `Ok(true)` where the step captures, `Ok(false)` where it enters an empty
/// hole, and the reason where it may not be made.
pub open spec fn move_outcome(holes: Seq<Hole>, from: usize, to: usize, turn: u8) -> Result<
    bool,
    &'static str,
> {
    let piece = piece_of_turn(turn);
    if from < 37 && holes[from as int].0 == Some(piece) {
        match listed_move(from, to, turn) {
            Some(m) => match holes[m.dest() as int].0 {
                Some(existing) => if existing == piece {
                    Err(err_own_piece())
                } else {
                    match m {
                        Move::Straight(_, _) => Ok(true),
                        Move::Diagonal(_, _) => Err(err_head_on()),
                    }
                },
                None => Ok(false),
            },
            None => Err(err_not_listed()),
        }
    } else {
        Err(err_no_piece())
    }
}

/// A listed step is legal where the mover may make it, capturing or not.
pub open spec fn is_legal(holes: Seq<Hole>, turn: u8, m: Move) -> bool {
    move_outcome(holes, m.origin(), m.dest(), turn) is Ok
}

/// The legal steps among the first `n` of `moves`, in their order.
pub open spec fn legal_among(holes: Seq<Hole>, turn: u8, moves: Seq<Move>, n: int) -> Seq<Move>
    decreases n,
{
    if n <= 0 {
        Seq::empty()
    } else if is_legal(holes, turn, moves[n - 1]) {
        legal_among(holes, turn, moves, n - 1).push(moves[n - 1])
    } else {
        legal_among(holes, turn, moves, n - 1)
    }
}

/// The steps player `turn` may make on these holes, in table order piece by
/// piece.
pub open spec fn legal_moves(holes: Seq<Hole>, turn: u8) -> Seq<Move> {
    legal_among(holes, turn, all_moves(holes, turn), all_moves(holes, turn).len() as int)
}

/// The mathematical content of a [`State`].
pub struct Position {
    pub active: bool,
    pub winner: Option<u8>,
    pub current_turn: u8,
    pub holes: Seq<Hole>,
}

impl Position {
    /// The player index is 0 or 1 and the board has its 37 holes.
    pub open spec fn wf(self) -> bool {
        &&& self.current_turn <= 1
        &&& self.holes.len() == 37
        &&& self.winner matches Some(w) ==> w <= 1
    }

    /// The steps open to player `turn`; none once the game is over.
    pub open spec fn possible_moves(self, turn: u8) -> Seq<Move> {
        if self.active {
            legal_moves(self.holes, turn)
        } else {
            Seq::empty()
        }
    }

    /// The position after the player to move steps from `from` to `to`.
    /// The mover wins where the step leaves the opponent without a legal
    /// step, or ends in a home hole (0 or 36); the turn passes on unless a
    /// home hole was reached.
    pub open spec fn play(self, from: usize, to: usize) -> Position {
        let mover = self.current_turn;
        let other = (1 - mover) as u8;
        let holes = self.holes.update(from as int, Hole(None)).update(
            to as int,
            Hole(Some(piece_of_turn(mover))),
        );
        let blocked = legal_moves(holes, other).len() == 0;
        let home = to == 0 || to == 36;
        Position {
            active: self.active && !blocked && !home,
            winner: if blocked || home {
                Some(mover)
            } else {
                self.winner
            },
            current_turn: if home {
                mover
            } else {
                other
            },
            holes,
        }
    }

    /// What `move_piece` answers for the step, given whether it may capture.
    pub open spec fn move_result(self, from: usize, to: usize, capture: bool) -> Result<
        (),
        &'static str,
    > {
        match move_outcome(self.holes, from, to, self.current_turn) {
            Ok(captures) => if captures && !capture {
                Err(err_no_capture())
            } else {
                Ok(())
            },
            Err(e) => Err(e),
        }
    }
}

/// The position after the first `n` steps of `moves` are played in turn.
pub open spec fn play_line(pos: Position, moves: Seq<Move>, n: int) -> Position
    decreases n,
{
    if n <= 0 {
        pos
    } else {
        play_line(pos, moves, n - 1).play(moves[n - 1].origin(), moves[n - 1].dest())
    }
}

/// Whether each of the first `n` steps of `moves` may be made, captures
/// allowed, in the position that the steps before it lead to.
pub open spec fn line_playable(pos: Position, moves: Seq<Move>, n: int) -> bool
    decreases n,
{
    if n <= 0 {
        true
    } else {
        &&& line_playable(pos, moves, n - 1)
        &&& moves[n - 1].origin() < 37
        &&& play_line(pos, moves, n - 1).move_result(
            moves[n - 1].origin(),
            moves[n - 1].dest(),
            true,
        ) is Ok
    }
}

/// One position of a game: the board, whose turn it is, and whether and
/// how the game has ended.
#[derive(Clone, Copy, Debug)]
pub struct State {
    pub active: bool,
    pub winner: Option<u8>,
    pub current_turn: u8,
    pub board: Board,
}

impl View for State {
    type V = Position;

    open spec fn view(&self) -> Position {
        Position {
            active: self.active,
            winner: self.winner,
            current_turn: self.current_turn,
            holes: self.board@,
        }
    }
}

/// Every step in `moves_from` starts and ends on the board.
pub proof fn lemma_moves_from_on_board(turn: u8, origins: Seq<usize>, n: int, i: int)
    requires
        0 <= n <= origins.len(),
        0 <= i < moves_from(turn, origins, n).len(),
    ensures
        moves_from(turn, origins, n)[i].origin() < 37,
        moves_from(turn, origins, n)[i].dest() < 37,
    decreases n,
{
    if n > 0 {
        let before = moves_from(turn, origins, n - 1);
        if i < before.len() {
            lemma_moves_from_on_board(turn, origins, n - 1, i);
        } else {
            super::board::lemma_table_moves_on_board(
                turn,
                origins[n - 1] as int,
                i - before.len(),
            );
        }
    }
}

/// `legal_among` keeps no more steps than it is given, and each one is legal.
pub proof fn lemma_legal_among(holes: Seq<Hole>, turn: u8, moves: Seq<Move>, n: int)
    requires
        0 <= n <= moves.len(),
    ensures
        legal_among(holes, turn, moves, n).len() <= n,
        forall|k: int|
            0 <= k < legal_among(holes, turn, moves, n).len() ==> is_legal(
                holes,
                turn,
                #[trigger] legal_among(holes, turn, moves, n)[k],
            ),
        legal_among(holes, turn, moves, n).len() == 0 <==> forall|j: int|
            0 <= j < n ==> !is_legal(holes, turn, #[trigger] moves[j]),
    decreases n,
{
    if n > 0 {
        lemma_legal_among(holes, turn, moves, n - 1);
        let prev = legal_among(holes, turn, moves, n - 1);
        let cur = legal_among(holes, turn, moves, n);
        assert forall|k: int| 0 <= k < cur.len() implies is_legal(holes, turn, #[trigger] cur[k]) by {
            if k < prev.len() {
                assert(cur[k] == prev[k]);
            }
        }
        if cur.len() == 0 {
            assert forall|j: int| 0 <= j < n implies !is_legal(holes, turn, #[trigger] moves[j]) by {
                if j == n - 1 {
                } else {
                    assert(prev.len() == 0);
                }
            }
        }
    }
}

impl State {
    /// The player to move is 0 or 1, and so is the winner, if there is one.
    pub open spec fn wf(self) -> bool {
        self@.wf()
    }

    /// The opening state: black to move on the opening board.
    pub fn new() -> (s: State)
        ensures
            s.active,
            s.winner is None,
            s.current_turn == 0,
            s.board.is_opening(),
            s.wf(),
    {
        State { active: true, winner: None, current_turn: 0, board: Board::new() }
    }

    /// The colour that player `idx` moves.
    pub fn get_pieces_type_from_idx(&self, idx: u8) -> (piece: Piece)
        requires
            idx <= 1,
        ensures
            piece == piece_of_turn(idx),
    {
        if idx == 0 {
            Piece::Black
        } else {
            Piece::White
        }
    }

    /// Whether player `turn` may step from `from` to `to`: `Ok(true)` where
    /// the step captures, `Ok(false)` where it does not, else the reason.
    pub fn can_move(&self, from: &usize, to: &usize, turn: u8) -> (outcome: Result<
        bool,
        &'static str,
    >)
        requires
            turn <= 1,
            *from < 37,
        ensures
            outcome == move_outcome(self@.holes, *from, *to, turn),
    {
        let current_player_pieces = self.get_pieces_type_from_idx(turn);
        let valid_start = match self.board.board[*from].0 {
            Some(p) => p == current_player_pieces,
            None => false,
        };
        if valid_start {
            match self.board.possible_move(from, to, turn) {
                Some(m) => {
                    let d = match m {
                        Move::Diagonal(_, d) => d,
                        Move::Straight(_, d) => d,
                    };
                    proof {
                        lemma_listed_move(*from, *to, turn);
                    }
                    match self.board.board[d].0 {
                        Some(existing_piece) => {
                            if existing_piece == current_player_pieces {
                                Err("can't occupy the same space as another one of your pieces")
                            } else {
                                match m {
                                    Move::Straight(_, _) => Ok(true),
                                    Move::Diagonal(_, _) => Err("must capture head-on"),
                                }
                            }
                        },
                        None => Ok(false),
                    }
                },
                None => Err("not a legal move for this piece or it's not your turn"),
            }
        } else {
            Err("Not a legal move. No pieces at the starting space specified")
        }
    }

    /// Makes the step for the player to move, if it is legal and, where it
    /// captures, `capture` allows that. On an error the state is unchanged.
    pub fn move_piece(&mut self, from: usize, to: usize, capture: bool) -> (done: Result<
        (),
        &'static str,
    >)
        requires
            old(self).wf(),
            from < 37,
        ensures
            done == old(self)@.move_result(from, to, capture),
            done is Ok ==> final(self)@ == old(self)@.play(from, to),
            done is Err ==> *final(self) == *old(self),
            final(self).wf(),
    {
        let current_player_pieces = self.get_pieces_type_from_idx(self.current_turn);
        match self.can_move(&from, &to, self.current_turn) {
            Ok(captures) => {
                if captures && !capture {
                    Err("you don't have permission to capture this piece")
                } else {
                    proof {
                        lemma_listed_move(from, to, self.current_turn);
                    }
                    self.move_piece_aux(from, to, current_player_pieces);
                    Ok(())
                }
            },
            Err(e) => Err(e),
        }
    }

    fn move_piece_aux(&mut self, from: usize, to: usize, current_player_pieces: Piece)
        requires
            old(self).wf(),
            from < 37,
            to < 37,
            current_player_pieces == piece_of_turn(old(self).current_turn),
        ensures
            final(self)@ == old(self)@.play(from, to),
            final(self).wf(),
    {
        self.board.board[from] = Hole(None);
        self.board.board[to] = Hole(Some(current_player_pieces));
        let other: u8 = 1 - self.current_turn;
        if self.board.current_players_pieces(other).len() == 0 || !self.has_a_possible_move(other) {
            proof {
                lemma_no_pieces_no_moves(self.board@, other);
            }
            self.active = false;
            self.winner = Some(self.current_turn);
        }
        if to == 0 || to == 36 {
            self.active = false;
            self.winner = Some(self.current_turn);
        } else {
            self.current_turn = 1 - self.current_turn;
        }
        assert(self@.holes =~= old(self)@.play(from, to).holes);
    }

    /// The steps open to player `turn` in this state; none once the game is
    /// over.
    pub fn current_possible_moves(&self, turn: u8) -> (moves: Vec<Move>)
        requires
            turn <= 1,
        ensures
            moves@ == self@.possible_moves(turn),
    {
        if !self.active {
            return Vec::new();
        }
        let candidates = self.board.all_valid_moves(turn);
        let mut moves: Vec<Move> = Vec::new();
        let mut i: usize = 0;
        while i < candidates.len()
            invariant
                turn <= 1,
                i <= candidates.len(),
                candidates@ == all_moves(self.board@, turn),
                moves@ == legal_among(self.board@, turn, candidates@, i as int),
            decreases candidates.len() - i,
        {
            let m = candidates[i];
            let (origin, dest) = match m {
                Move::Diagonal(o, d) => (o, d),
                Move::Straight(o, d) => (o, d),
            };
            proof {
                let pieces = pieces_of(self.board@, turn);
                lemma_moves_from_on_board(turn, pieces, pieces.len() as int, i as int);
            }
            if self.can_move(&origin, &dest, turn).is_ok() {
                moves.push(m);
            }
            i += 1;
        }
        moves
    }

    /// Whether player `turn` has a legal step on this board.
    fn has_a_possible_move(&self, turn: u8) -> (any: bool)
        requires
            turn <= 1,
        ensures
            any == (legal_moves(self.board@, turn).len() > 0),
    {
        let candidates = self.board.all_valid_moves(turn);
        let mut i: usize = 0;
        while i < candidates.len()
            invariant
                turn <= 1,
                i <= candidates.len(),
                candidates@ == all_moves(self.board@, turn),
                forall|j: int| 0 <= j < i ==> !is_legal(self.board@, turn, #[trigger] candidates@[j]),
            decreases candidates.len() - i,
        {
            let m = candidates[i];
            let (origin, dest) = match m {
                Move::Diagonal(o, d) => (o, d),
                Move::Straight(o, d) => (o, d),
            };
            proof {
                let pieces = pieces_of(self.board@, turn);
                lemma_moves_from_on_board(turn, pieces, pieces.len() as int, i as int);
            }
            if self.can_move(&origin, &dest, turn).is_ok() {
                proof {
                    lemma_legal_among(self.board@, turn, candidates@, candidates@.len() as int);
                }
                return true;
            }
            i += 1;
        }
        proof {
            lemma_legal_among(self.board@, turn, candidates@, candidates@.len() as int);
        }
        false
    }
}

/// The listed step from `from` to `to`, where there is one, ends in `to`,
/// which is a hole of the board.
pub proof fn lemma_listed_move(from: usize, to: usize, turn: u8)
    ensures
        listed_move(from, to, turn) matches Some(m) ==> m.dest() == to && to < 37,
{
    let row = table_moves(turn, from as int);
    lemma_first_move_to(row, to, 0);
    if listed_move(from, to, turn) is Some {
        let i = choose|i: int| 0 <= i < row.len() && listed_move(from, to, turn) == Some(row[i]);
        super::board::lemma_table_moves_on_board(turn, from as int, i);
    }
}

/// What `first_move_to` finds is one of the steps, and it ends in `to`.
pub proof fn lemma_first_move_to(moves: Seq<Move>, to: usize, start: int)
    requires
        0 <= start,
    ensures
        super::board::first_move_to(moves, to, start) matches Some(m) ==> m.dest() == to
            && exists|i: int| 0 <= i < moves.len() && Some(m) == Some(#[trigger] moves[i]),
    decreases moves.len() - start,
{
    if start < moves.len() {
        if moves[start].dest() == to {
        } else {
            lemma_first_move_to(moves, to, start + 1);
        }
    }
}

/// `moves_from` lists at most three steps for each origin.
pub proof fn lemma_moves_from_len(turn: u8, origins: Seq<usize>, n: int)
    requires
        0 <= n <= origins.len(),
    ensures
        moves_from(turn, origins, n).len() <= 3 * n,
    decreases n,
{
    if n > 0 {
        lemma_moves_from_len(turn, origins, n - 1);
    }
}

/// No position offers a player more than 111 steps.
pub proof fn lemma_possible_moves_len(pos: Position, turn: u8)
    requires
        pos.holes.len() == 37,
    ensures
        pos.possible_moves(turn).len() <= 111,
{
    let pieces = pieces_of(pos.holes, turn);
    super::board::lemma_pieces_below(pos.holes, piece_of_turn(turn), 37);
    lemma_moves_from_len(turn, pieces, pieces.len() as int);
    let all = all_moves(pos.holes, turn);
    lemma_legal_among(pos.holes, turn, all, all.len() as int);
}

/// A playable line is playable up to any of its steps.
pub proof fn lemma_line_playable_prefix(pos: Position, moves: Seq<Move>, n: int, k: int)
    requires
        0 <= k <= n,
        line_playable(pos, moves, n),
    ensures
        line_playable(pos, moves, k),
    decreases n,
{
    if k < n {
        lemma_line_playable_prefix(pos, moves, n - 1, k);
    }
}

/// A step keeps a position well formed.
pub proof fn lemma_play_wf(pos: Position, from: usize, to: usize)
    requires
        pos.wf(),
        from < 37,
        to < 37,
    ensures
        pos.play(from, to).wf(),
{
}

/// Every step open to a player may be made with captures allowed, and its
/// origin is a hole of the board.
pub proof fn lemma_possible_moves_playable(pos: Position, i: int)
    requires
        0 <= i < pos.possible_moves(pos.current_turn).len(),
    ensures
        pos.possible_moves(pos.current_turn)[i].origin() < 37,
        pos.possible_moves(pos.current_turn)[i].dest() < 37,
        pos.move_result(
            pos.possible_moves(pos.current_turn)[i].origin(),
            pos.possible_moves(pos.current_turn)[i].dest(),
            true,
        ) is Ok,
{
    let all = all_moves(pos.holes, pos.current_turn);
    lemma_legal_among(pos.holes, pos.current_turn, all, all.len() as int);
    let m = pos.possible_moves(pos.current_turn)[i];
    lemma_listed_move(m.origin(), m.dest(), pos.current_turn);
}

/// Steps put behind a line change neither where its first steps lead nor
/// whether they may be made.
pub proof fn lemma_line_extends(pos: Position, moves: Seq<Move>, m: Move, n: int)
    requires
        0 <= n <= moves.len(),
    ensures
        play_line(pos, moves.push(m), n) == play_line(pos, moves, n),
        line_playable(pos, moves.push(m), n) == line_playable(pos, moves, n),
    decreases n,
{
    if n > 0 {
        lemma_line_extends(pos, moves, m, n - 1);
        assert(moves.push(m)[n - 1] == moves[n - 1]);
    }
}

/// How far a piece on hole `i` is from the end of its way, and 0 for an
/// empty hole: a black piece has its rows to hole 36 and one more before
/// it, a white piece its rows to hole 0 and one more.
pub open spec fn way_left(hole: Hole, i: int) -> int {
    match hole.0 {
        Some(Piece::Black) => 13 - BLACK_PROXIMITY_ROW@[i],
        Some(Piece::White) => 1 + BLACK_PROXIMITY_ROW@[i],
        None => 0,
    }
}

/// The ways left of the pieces on the first `n` holes, summed.
pub open spec fn ways_left(holes: Seq<Hole>, n: int) -> int
    decreases n,
{
    if n <= 0 {
        0
    } else {
        ways_left(holes, n - 1) + way_left(holes[n - 1], n - 1)
    }
}

/// The measure of a game: the ways left of all pieces. Every step makes
/// it smaller, so no game goes on for ever.
pub open spec fn moves_left(pos: Position) -> int {
    ways_left(pos.holes, 37)
}

/// The ways left are never negative and at most 13 a hole.
pub proof fn lemma_ways_left_bounds(holes: Seq<Hole>, n: int)
    requires
        0 <= n <= 37,
        holes.len() == 37,
    ensures
        0 <= ways_left(holes, n) <= 13 * n,
    decreases n,
{
    if n > 0 {
        lemma_ways_left_bounds(holes, n - 1);
    }
}

/// Changing one hole changes the sum by what that hole changes.
pub proof fn lemma_ways_left_update(holes: Seq<Hole>, i: int, hole: Hole, n: int)
    requires
        0 <= i < holes.len(),
        0 <= n <= holes.len(),
    ensures
        ways_left(holes.update(i, hole), n) == ways_left(holes, n) + if i < n {
            way_left(hole, i) - way_left(holes[i], i)
        } else {
            0
        },
    decreases n,
{
    if n > 0 {
        lemma_ways_left_update(holes, i, hole, n - 1);
    }
}

/// Every listed step leads forward: for black to a higher row, for white
/// to a lower one.
pub proof fn lemma_table_forward(turn: u8, from: int, i: int)
    requires
        turn <= 1,
        0 <= i < table_moves(turn, from).len(),
    ensures
        turn == 0 ==> BLACK_PROXIMITY_ROW@[table_moves(turn, from)[i].dest() as int]
            > BLACK_PROXIMITY_ROW@[from],
        turn == 1 ==> BLACK_PROXIMITY_ROW@[table_moves(turn, from)[i].dest() as int]
            < BLACK_PROXIMITY_ROW@[from],
{
}

/// A step that may be made shortens the ways left.
pub proof fn lemma_play_shortens(pos: Position, from: usize, to: usize)
    requires
        pos.wf(),
        from < 37,
        pos.move_result(from, to, true) is Ok,
    ensures
        0 <= moves_left(pos.play(from, to)) < moves_left(pos),
{
    let turn = pos.current_turn;
    let row = table_moves(turn, from as int);
    lemma_first_move_to(row, to, 0);
    let m = listed_move(from, to, turn)->0;
    let i = choose|i: int| 0 <= i < row.len() && Some(m) == Some(#[trigger] row[i]);
    lemma_table_forward(turn, from as int, i);
    super::board::lemma_table_moves_on_board(turn, from as int, i);
    let cleared = pos.holes.update(from as int, Hole(None));
    let placed = cleared.update(to as int, Hole(Some(piece_of_turn(turn))));
    lemma_ways_left_update(pos.holes, from as int, Hole(None), 37);
    lemma_ways_left_update(cleared, to as int, Hole(Some(piece_of_turn(turn))), 37);
    lemma_ways_left_bounds(placed, 37);
}

/// A player without pieces has no legal step.
pub proof fn lemma_no_pieces_no_moves(holes: Seq<Hole>, turn: u8)
    ensures
        pieces_of(holes, turn).len() == 0 ==> legal_moves(holes, turn).len() == 0,
{
}

} // verus!
