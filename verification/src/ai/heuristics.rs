//! The scalar heuristics that judge a position, and their weighted sum.
//!
//! Every heuristic is high where black stands well and low where white
//! does.
#![allow(non_camel_case_types)]

use super::location_maps::{
    anti_centrality, black_proximity, black_proximity_row, centrality, middle_proximity,
    table_value, white_proximity, white_proximity_row, BLACK_PROXIMITY, BLACK_PROXIMITY_ROW,
    CENTRALITY, MIDDLE_PROXIMITY, WHITE_PROXIMITY,
};
use crate::game::board::{pieces_of, straight_hex, Board, Hole, Move};
use crate::game::gamestate::{
    lemma_line_playable_prefix, lemma_possible_moves_len, line_playable, play_line, Position, State,
};
use crate::game::pieces::{piece_of_turn, Piece};
use vstd::prelude::*;

verus! {

/// Number of heuristics, and so of weights.
pub const NUM_HEURISTICS: usize = 19;

/// No heuristic scores beyond this bound, one way or the other.
pub const SCORE_BOUND: i64 = 2_000_000;

/// The quotient of `a` by `b` rounded towards zero, as machine division
/// rounds it; 0 where `b` is 0.
pub open spec fn trunc_div(a: int, b: int) -> int {
    if b > 0 {
        if a >= 0 {
            a / b
        } else {
            -((-a) / b)
        }
    } else if b < 0 {
        if a >= 0 {
            -(a / (-b))
        } else {
            (-a) / (-b)
        }
    } else {
        0
    }
}

/// `value` mapped linearly from `[min, max]` onto `[-1000, 1000]`, with the
/// quotient rounded towards zero.
pub open spec fn normalize(min: int, max: int, value: int) -> int {
    trunc_div(2000 * (value - min), max - min) - 1000
}

/// The inputs on which `unsigned100_normalize` computes within `i64`.
pub open spec fn normalize_defined(min: int, max: int, value: int) -> bool {
    &&& max != min
    &&& i64::MIN <= value - min <= i64::MAX
    &&& i64::MIN <= 2000 * (value - min) <= i64::MAX
    &&& i64::MIN <= max - min <= i64::MAX
    &&& i64::MIN + 1000 <= trunc_div(2000 * (value - min), max - min) <= i64::MAX
}

/// The absolute value of an integer.
pub open spec fn magnitude(a: int) -> int {
    if a >= 0 {
        a
    } else {
        -a
    }
}

/// A quotient rounded towards zero is no larger in magnitude than the
/// dividend.
pub proof fn lemma_trunc_div_bound(a: int, b: int)
    ensures
        -magnitude(a) <= trunc_div(a, b) <= magnitude(a),
{
    if b != 0 {
        let x = magnitude(a);
        let d = magnitude(b);
        vstd::arithmetic::div_mod::lemma_div_pos_is_pos(x, d);
        vstd::arithmetic::div_mod::lemma_div_nonincreasing(x, d);
    }
}

/// A raw score mapped from `[min, max]` onto `[-1000, 1000]`.
pub fn unsigned100_normalize(min: i64, max: i64, value: i64) -> (score: i64)
    requires
        normalize_defined(min as int, max as int, value as int),
    ensures
        score == normalize(min as int, max as int, value as int),
        -magnitude(2000 * (value - min)) - 1000 <= score <= magnitude(2000 * (value - min)) - 1000,
{
    proof {
        lemma_trunc_div_bound(2000 * (value - min), max - min);
    }
    let numerator = 1000 * 2 * (value - min);
    let denominator = max - min;
    match numerator.checked_div(denominator) {
        Some(quotient) => quotient - 1000,
        None => {
            assert(false);
            0
        },
    }
}

/// The largest middle-proximity total that ten pieces can reach: seven
/// holes on the middle line and three beside it.
pub fn upperbound_middle_proximity(middle_weight: i64, next_middle_weight: i64) -> (bound: i64)
    requires
        i64::MIN <= 7 * middle_weight <= i64::MAX,
        i64::MIN <= 3 * next_middle_weight <= i64::MAX,
        i64::MIN <= 7 * middle_weight + 3 * next_middle_weight <= i64::MAX,
    ensures
        bound == 7 * middle_weight + 3 * next_middle_weight,
{
    7 * middle_weight + 3 * next_middle_weight
}

/// The holes of the middle line, from home to home.
pub open spec fn is_middle(p: usize) -> bool {
    p == 0 || p == 4 || p == 11 || p == 18 || p == 25 || p == 32 || p == 36
}

/// What a piece on `p` is worth as a guard of its own home.
pub open spec fn important_value(turn: u8, p: usize) -> int {
    if turn == 0 {
        if p == 0 {
            3
        } else if p == 1 || p == 2 {
            2
        } else {
            0
        }
    } else {
        if p == 36 {
            3
        } else if p == 34 || p == 35 {
            2
        } else {
            0
        }
    }
}

/// The holes on which a piece of player `turn` is never counted as
/// undefended: those at the rim near its own home.
pub open spec fn is_sheltered(turn: u8, p: usize) -> bool {
    if turn == 0 {
        p == 0 || p == 1 || p == 2 || p == 3 || p == 5 || p == 6 || p == 9
    } else {
        p == 27 || p == 30 || p == 31 || p == 33 || p == 34 || p == 35 || p == 36
    }
}

/// How many rows hole `p` lies from the home of player `turn`.
pub open spec fn rows_from_home(turn: u8, p: usize) -> int {
    if turn == 0 {
        table_value(BLACK_PROXIMITY_ROW, p)
    } else {
        12 - table_value(BLACK_PROXIMITY_ROW, p)
    }
}

/// Whether `p` holds a piece of player `turn` that stands straight ahead of
/// another piece of that player.
pub open spec fn is_backed(holes: Seq<Hole>, turn: u8, p: usize) -> bool {
    &&& holes[p as int].0 == Some(piece_of_turn(turn))
    &&& exists|k: int|
        0 <= k < pieces_of(holes, turn).len() && straight_hex(
            turn,
            #[trigger] pieces_of(holes, turn)[k] as int,
        ) == Some(p)
}

/// What one piece adds to a total. Each heuristic is built from the totals
/// of one or two of these over a player's pieces.
#[derive(Clone, Copy, Debug)]
pub enum Term {
    /// 1 for every piece.
    Unit,
    /// 1 on the middle line.
    MiddleLine,
    /// The piece's worth as a guard of its home.
    Important,
    /// The hole's middle proximity.
    MiddleProximity,
    /// The hole's proximity to the player's own home.
    TowardsHome,
    /// The hole's proximity to the opponent's home.
    TowardsOpponent,
    /// The hole's centrality.
    Centrality,
    /// The hole's anti-centrality.
    AntiCentrality,
    /// 1 where the hole straight ahead is empty.
    FreeAhead,
    /// The middle proximity of the hole straight ahead, where it is empty.
    FreeAheadMiddle,
    /// 1 off the sheltered holes.
    Exposed,
    /// 1 where the hole straight ahead holds a piece of the same player.
    OwnAhead,
    /// The hole's middle proximity, where the hole straight ahead holds a
    /// piece of the same player.
    OwnAheadMiddle,
    /// The hole's middle proximity, unless it is sheltered or backed.
    UnbackedMiddle,
    /// 1 where the piece is at least this many rows from home.
    Advanced(i64),
    /// The hole's middle proximity, where the piece is that far from home.
    AdvancedMiddle(i64),
    /// The hole's anti-centrality, where the piece is that far from home.
    AdvancedRim(i64),
    /// The proximity to the opponent's home, on the middle line.
    TimingMiddle,
    /// The proximity to the opponent's home, off the middle line.
    TimingSide,
}

/// What a piece of player `turn` on hole `p` adds under `term`.
pub open spec fn term_value(holes: Seq<Hole>, turn: u8, term: Term, p: usize) -> int {
    let own = Some(piece_of_turn(turn));
    let ahead = straight_hex(turn, p as int);
    let towards_home = if turn == 0 {
        table_value(BLACK_PROXIMITY, p)
    } else {
        table_value(WHITE_PROXIMITY, p)
    };
    let towards_opponent = if turn == 0 {
        table_value(WHITE_PROXIMITY, p)
    } else {
        table_value(BLACK_PROXIMITY, p)
    };
    match term {
        Term::Unit => 1,
        Term::MiddleLine => if is_middle(p) {
            1
        } else {
            0
        },
        Term::Important => important_value(turn, p),
        Term::MiddleProximity => table_value(MIDDLE_PROXIMITY, p),
        Term::TowardsHome => towards_home,
        Term::TowardsOpponent => towards_opponent,
        Term::Centrality => table_value(CENTRALITY, p),
        Term::AntiCentrality => 3 - table_value(CENTRALITY, p),
        Term::FreeAhead => match ahead {
            Some(i) => if holes[i as int].0 is None {
                1
            } else {
                0
            },
            None => 0,
        },
        Term::FreeAheadMiddle => match ahead {
            Some(i) => if holes[i as int].0 is None {
                table_value(MIDDLE_PROXIMITY, i)
            } else {
                0
            },
            None => 0,
        },
        Term::Exposed => if is_sheltered(turn, p) {
            0
        } else {
            1
        },
        Term::OwnAhead => match ahead {
            Some(i) => if holes[i as int].0 == own {
                1
            } else {
                0
            },
            None => 0,
        },
        Term::OwnAheadMiddle => match ahead {
            Some(i) => if holes[i as int].0 == own {
                table_value(MIDDLE_PROXIMITY, p)
            } else {
                0
            },
            None => 0,
        },
        Term::UnbackedMiddle => if is_sheltered(turn, p) || is_backed(holes, turn, p) {
            0
        } else {
            table_value(MIDDLE_PROXIMITY, p)
        },
        Term::Advanced(rows) => if rows_from_home(turn, p) >= rows {
            1
        } else {
            0
        },
        Term::AdvancedMiddle(rows) => if rows_from_home(turn, p) >= rows {
            table_value(MIDDLE_PROXIMITY, p)
        } else {
            0
        },
        Term::AdvancedRim(rows) => if rows_from_home(turn, p) >= rows {
            3 - table_value(CENTRALITY, p)
        } else {
            0
        },
        Term::TimingMiddle => if is_middle(p) {
            towards_opponent
        } else {
            0
        },
        Term::TimingSide => if is_middle(p) {
            0
        } else {
            towards_opponent
        },
    }
}

/// The sum of a term over the first `n` of `pieces`.
pub open spec fn sum_first(holes: Seq<Hole>, turn: u8, term: Term, pieces: Seq<usize>, n: int) -> int
    decreases n,
{
    if n <= 0 {
        0
    } else {
        sum_first(holes, turn, term, pieces, n - 1) + term_value(holes, turn, term, pieces[n - 1])
    }
}

/// The largest value of a term over the first `n` of `pieces`; 0 where
/// there is none.
pub open spec fn max_first(holes: Seq<Hole>, turn: u8, term: Term, pieces: Seq<usize>, n: int) -> int
    decreases n,
{
    if n <= 0 {
        0
    } else {
        let before = max_first(holes, turn, term, pieces, n - 1);
        let here = term_value(holes, turn, term, pieces[n - 1]);
        if here > before {
            here
        } else {
            before
        }
    }
}

/// The sum of a term over all pieces of player `turn`.
pub open spec fn total(holes: Seq<Hole>, turn: u8, term: Term) -> int {
    sum_first(holes, turn, term, pieces_of(holes, turn), pieces_of(holes, turn).len() as int)
}

/// The largest value of a term over all pieces of player `turn`.
pub open spec fn peak(holes: Seq<Hole>, turn: u8, term: Term) -> int {
    max_first(holes, turn, term, pieces_of(holes, turn), pieces_of(holes, turn).len() as int)
}

/// How far the foremost piece of player `turn` is from its home, in rows:
/// black's last piece in hole order, white's first. Without pieces the
/// player counts as standing on its home hole.
pub open spec fn furthest(holes: Seq<Hole>, turn: u8) -> int {
    let pieces = pieces_of(holes, turn);
    if turn == 0 {
        if pieces.len() > 0 {
            rows_from_home(0, pieces.last())
        } else {
            0
        }
    } else {
        if pieces.len() > 0 {
            rows_from_home(1, pieces.first())
        } else {
            0
        }
    }
}

/// A term never leaves the range from 0 to 6.
pub proof fn lemma_term_bounds(holes: Seq<Hole>, turn: u8, term: Term, p: usize)
    requires
        p < 37,
        holes.len() == 37,
    ensures
        0 <= term_value(holes, turn, term, p) <= 6,
{
    match straight_hex(turn, p as int) {
        Some(i) => {
            assert(i < 37);
        },
        None => {},
    }
}

/// A total over at most `n` pieces lies between 0 and `6 * n`, and a peak
/// between 0 and 6.
pub proof fn lemma_sum_bounds(holes: Seq<Hole>, turn: u8, term: Term, pieces: Seq<usize>, n: int)
    requires
        0 <= n <= pieces.len(),
        holes.len() == 37,
        forall|k: int| 0 <= k < pieces.len() ==> #[trigger] pieces[k] < 37,
    ensures
        0 <= sum_first(holes, turn, term, pieces, n) <= 6 * n,
        0 <= max_first(holes, turn, term, pieces, n) <= 6,
    decreases n,
{
    if n > 0 {
        lemma_sum_bounds(holes, turn, term, pieces, n - 1);
        lemma_term_bounds(holes, turn, term, pieces[n - 1]);
    }
}

fn is_middle_hole(p: usize) -> (b: bool)
    ensures
        b == is_middle(p),
{
    p == 0 || p == 4 || p == 11 || p == 18 || p == 25 || p == 32 || p == 36
}

fn is_sheltered_hole(turn: u8, p: usize) -> (b: bool)
    ensures
        b == is_sheltered(turn, p),
{
    if turn == 0 {
        p == 0 || p == 1 || p == 2 || p == 3 || p == 5 || p == 6 || p == 9
    } else {
        p == 27 || p == 30 || p == 31 || p == 33 || p == 34 || p == 35 || p == 36
    }
}

fn holds(board: &Board, p: usize, piece: Piece) -> (b: bool)
    requires
        p < 37,
    ensures
        b == (board@[p as int].0 == Some(piece)),
{
    match board.board[p].0 {
        Some(q) => q == piece,
        None => false,
    }
}

fn is_free(board: &Board, p: usize) -> (b: bool)
    requires
        p < 37,
    ensures
        b == (board@[p as int].0 is None),
{
    match board.board[p].0 {
        Some(_) => false,
        None => true,
    }
}

fn rows_from_home_of(turn: u8, p: usize) -> (rows: i64)
    requires
        p < 37,
    ensures
        rows == rows_from_home(turn, p),
        0 <= rows <= 12,
{
    if turn == 0 {
        black_proximity_row(p)
    } else {
        white_proximity_row(p)
    }
}

fn backed(board: &Board, turn: u8, pieces: &Vec<usize>, p: usize) -> (b: bool)
    requires
        turn <= 1,
        p < 37,
        pieces@ == pieces_of(board@, turn),
    ensures
        b == is_backed(board@, turn, p),
{
    let own = if turn == 0 {
        Piece::Black
    } else {
        Piece::White
    };
    if !holds(board, p, own) {
        return false;
    }
    proof {
        crate::game::board::lemma_pieces_below(board@, piece_of_turn(turn), 37);
    }
    let mut k: usize = 0;
    while k < pieces.len()
        invariant
            turn <= 1,
            k <= pieces.len(),
            pieces@ == pieces_of(board@, turn),
            forall|j: int| 0 <= j < pieces@.len() ==> #[trigger] pieces@[j] < 37,
            forall|j: int| 0 <= j < k ==> straight_hex(turn, #[trigger] pieces@[j] as int) != Some(p),
            board@[p as int].0 == Some(piece_of_turn(turn)),
        decreases pieces.len() - k,
    {
        match board.get_straight_hex(turn, pieces[k]) {
            Some(i) => {
                if i == p {
                    assert(straight_hex(turn, pieces_of(board@, turn)[k as int] as int) == Some(p));
                    return true;
                }
            },
            None => {},
        }
        k += 1;
    }
    false
}

fn term_at(board: &Board, turn: u8, term: Term, pieces: &Vec<usize>, p: usize) -> (v: i64)
    requires
        turn <= 1,
        p < 37,
        pieces@ == pieces_of(board@, turn),
    ensures
        v == term_value(board@, turn, term, p),
        0 <= v <= 6,
{
    proof {
        lemma_term_bounds(board@, turn, term, p);
    }
    let own = if turn == 0 {
        Piece::Black
    } else {
        Piece::White
    };
    match term {
        Term::Unit => 1,
        Term::MiddleLine => if is_middle_hole(p) {
            1
        } else {
            0
        },
        Term::Important => if turn == 0 {
            if p == 0 {
                3
            } else if p == 1 || p == 2 {
                2
            } else {
                0
            }
        } else {
            if p == 36 {
                3
            } else if p == 34 || p == 35 {
                2
            } else {
                0
            }
        },
        Term::MiddleProximity => middle_proximity(&p),
        Term::TowardsHome => if turn == 0 {
            black_proximity(&p)
        } else {
            white_proximity(&p)
        },
        Term::TowardsOpponent => if turn == 0 {
            white_proximity(&p)
        } else {
            black_proximity(&p)
        },
        Term::Centrality => centrality(&p),
        Term::AntiCentrality => anti_centrality(&p),
        Term::FreeAhead => match board.get_straight_hex(turn, p) {
            Some(i) => if is_free(board, i) {
                1
            } else {
                0
            },
            None => 0,
        },
        Term::FreeAheadMiddle => match board.get_straight_hex(turn, p) {
            Some(i) => if is_free(board, i) {
                middle_proximity(&i)
            } else {
                0
            },
            None => 0,
        },
        Term::Exposed => if is_sheltered_hole(turn, p) {
            0
        } else {
            1
        },
        Term::OwnAhead => match board.get_straight_hex(turn, p) {
            Some(i) => if holds(board, i, own) {
                1
            } else {
                0
            },
            None => 0,
        },
        Term::OwnAheadMiddle => match board.get_straight_hex(turn, p) {
            Some(i) => if holds(board, i, own) {
                middle_proximity(&p)
            } else {
                0
            },
            None => 0,
        },
        Term::UnbackedMiddle => if is_sheltered_hole(turn, p) || backed(board, turn, pieces, p) {
            0
        } else {
            middle_proximity(&p)
        },
        Term::Advanced(rows) => if rows_from_home_of(turn, p) >= rows {
            1
        } else {
            0
        },
        Term::AdvancedMiddle(rows) => if rows_from_home_of(turn, p) >= rows {
            middle_proximity(&p)
        } else {
            0
        },
        Term::AdvancedRim(rows) => if rows_from_home_of(turn, p) >= rows {
            anti_centrality(&p)
        } else {
            0
        },
        Term::TimingMiddle => if is_middle_hole(p) {
            if turn == 0 {
                white_proximity(&p)
            } else {
                black_proximity(&p)
            }
        } else {
            0
        },
        Term::TimingSide => if is_middle_hole(p) {
            0
        } else {
            if turn == 0 {
                white_proximity(&p)
            } else {
                black_proximity(&p)
            }
        },
    }
}

/// The sum of a term over all pieces of player `turn`.
pub fn total_of(board: &Board, turn: u8, term: Term) -> (sum: i64)
    requires
        turn <= 1,
    ensures
        sum == total(board@, turn, term),
        0 <= sum <= 222,
{
    let pieces = board.current_players_pieces(turn);
    let mut sum: i64 = 0;
    let mut k: usize = 0;
    while k < pieces.len()
        invariant
            turn <= 1,
            k <= pieces.len(),
            pieces@.len() <= 37,
            pieces@ == pieces_of(board@, turn),
            forall|j: int| 0 <= j < pieces@.len() ==> #[trigger] pieces@[j] < 37,
            sum == sum_first(board@, turn, term, pieces@, k as int),
            0 <= sum <= 6 * k,
        decreases pieces.len() - k,
    {
        let v = term_at(board, turn, term, &pieces, pieces[k]);
        sum = sum + v;
        k += 1;
    }
    sum
}

/// The largest value of a term over all pieces of player `turn`; 0 where
/// the player has no piece.
pub fn peak_of(board: &Board, turn: u8, term: Term) -> (best: i64)
    requires
        turn <= 1,
    ensures
        best == peak(board@, turn, term),
        0 <= best <= 6,
{
    let pieces = board.current_players_pieces(turn);
    let mut best: i64 = 0;
    let mut k: usize = 0;
    while k < pieces.len()
        invariant
            turn <= 1,
            k <= pieces.len(),
            pieces@ == pieces_of(board@, turn),
            forall|j: int| 0 <= j < pieces@.len() ==> #[trigger] pieces@[j] < 37,
            best == max_first(board@, turn, term, pieces@, k as int),
            0 <= best <= 6,
        decreases pieces.len() - k,
    {
        let v = term_at(board, turn, term, &pieces, pieces[k]);
        if v > best {
            best = v;
        }
        k += 1;
    }
    best
}

/// How far the foremost piece of player `turn` is from its home, in rows.
pub fn furthest_of(board: &Board, turn: u8) -> (rows: i64)
    requires
        turn <= 1,
    ensures
        rows == furthest(board@, turn),
        0 <= rows <= 12,
{
    let pieces = board.current_players_pieces(turn);
    if pieces.len() == 0 {
        0
    } else if turn == 0 {
        black_proximity_row(pieces[pieces.len() - 1])
    } else {
        white_proximity_row(pieces[0])
    }
}

/// One scalar judgement of a position. High is good for black.
pub trait Heuristic {
    /// What the heuristic makes of a position.
    spec fn value(&self, pos: Position) -> int;

    /// The heuristic's score of `state`.
    fn score(&self, state: &State) -> (s: i64)
        ensures
            s == self.value(state@),
            -SCORE_BOUND <= s <= SCORE_BOUND,
    ;

    /// The heuristic's name.
    spec fn label(&self) -> Seq<char>;

    /// A short name for reports.
    fn name(&self) -> (name: &'static str)
        ensures
            name@ == self.label(),
    ;
}

/// The absolute difference of two integers.
pub open spec fn gap(a: int, b: int) -> int {
    if a >= b {
        a - b
    } else {
        b - a
    }
}

/// The rows a piece of player `turn` must have behind it to count as
/// having passed the opponent's foremost piece.
pub open spec fn passing_rows(holes: Seq<Hole>, turn: u8) -> int {
    12 - furthest(holes, (1 - turn) as u8)
}

/// How many more of white's pieces than of black's have passed the other
/// side's foremost piece.
pub open spec fn passed_difference(holes: Seq<Hole>) -> int {
    total(holes, 1, Term::Advanced(passing_rows(holes, 1) as i64)) - total(
        holes,
        0,
        Term::Advanced(passing_rows(holes, 0) as i64),
    )
}

fn passing_rows_of(board: &Board, turn: u8) -> (rows: i64)
    requires
        turn <= 1,
    ensures
        rows == passing_rows(board@, turn),
        0 <= rows <= 12,
{
    12 - furthest_of(board, 1 - turn)
}

/// How many more pieces black has than white.
#[derive(Clone, Copy, Debug)]
pub struct PieceDifferential;

impl Heuristic for PieceDifferential {
    open spec fn value(&self, pos: Position) -> int {
        normalize(-10, 10, pieces_of(pos.holes, 0).len() - pieces_of(pos.holes, 1).len())
    }

    fn score(&self, state: &State) -> (s: i64) {
        let black_score = state.board.current_players_pieces(0).len() as i64;
        let white_score = state.board.current_players_pieces(1).len() as i64;
        unsigned100_normalize(-10, 10, black_score - white_score)
    }

    open spec fn label(&self) -> Seq<char> {
        "Piece Diff"@
    }

    fn name(&self) -> (name: &'static str) {
        "Piece Diff"
    }
}

/// How many more pieces black has on the middle line.
#[derive(Clone, Copy, Debug)]
pub struct MiddleLineDifferential;

impl Heuristic for MiddleLineDifferential {
    open spec fn value(&self, pos: Position) -> int {
        normalize(-7, 7, total(pos.holes, 0, Term::MiddleLine) - total(pos.holes, 1, Term::MiddleLine))
    }

    fn score(&self, state: &State) -> (s: i64) {
        let black_score = total_of(&state.board, 0, Term::MiddleLine);
        let white_score = total_of(&state.board, 1, Term::MiddleLine);
        unsigned100_normalize(-7, 7, black_score - white_score)
    }

    open spec fn label(&self) -> Seq<char> {
        "Middle Line Diff"@
    }

    fn name(&self) -> (name: &'static str) {
        "Middle Line Diff"
    }
}

/// The worth of black's home guards less that of white's.
#[derive(Clone, Copy, Debug)]
pub struct ImportantPieces;

impl Heuristic for ImportantPieces {
    open spec fn value(&self, pos: Position) -> int {
        normalize(-5, 5, total(pos.holes, 0, Term::Important) - total(pos.holes, 1, Term::Important))
    }

    fn score(&self, state: &State) -> (s: i64) {
        let black_score = total_of(&state.board, 0, Term::Important);
        let white_score = total_of(&state.board, 1, Term::Important);
        unsigned100_normalize(-5, 5, black_score - white_score)
    }

    open spec fn label(&self) -> Seq<char> {
        "Impt Pieces"@
    }

    fn name(&self) -> (name: &'static str) {
        "Impt Pieces"
    }
}

/// How much closer to the middle line black's pieces stand.
#[derive(Clone, Copy, Debug)]
pub struct MiddleProximity;

impl Heuristic for MiddleProximity {
    open spec fn value(&self, pos: Position) -> int {
        normalize(-51, 51, total(pos.holes, 0, Term::MiddleProximity) - total(pos.holes, 1, Term::MiddleProximity))
    }

    fn score(&self, state: &State) -> (s: i64) {
        let black_score = total_of(&state.board, 0, Term::MiddleProximity);
        let white_score = total_of(&state.board, 1, Term::MiddleProximity);
        let bound = upperbound_middle_proximity(6, 3);
        assert(bound == 51);
        unsigned100_normalize(-bound, bound, black_score - white_score)
    }

    open spec fn label(&self) -> Seq<char> {
        "Middle Prox"@
    }

    fn name(&self) -> (name: &'static str) {
        "Middle Prox"
    }
}

/// How much closer black's pieces are to white's home than white's to black's.
#[derive(Clone, Copy, Debug)]
pub struct AggressionDifferential;

impl Heuristic for AggressionDifferential {
    open spec fn value(&self, pos: Position) -> int {
        normalize(-34, 34, total(pos.holes, 0, Term::TowardsOpponent) - total(pos.holes, 1, Term::TowardsOpponent))
    }

    fn score(&self, state: &State) -> (s: i64) {
        let black_score = total_of(&state.board, 0, Term::TowardsOpponent);
        let white_score = total_of(&state.board, 1, Term::TowardsOpponent);
        unsigned100_normalize(-34, 34, black_score - white_score)
    }

    open spec fn label(&self) -> Seq<char> {
        "Aggression Diff"@
    }

    fn name(&self) -> (name: &'static str) {
        "Aggression Diff"
    }
}

/// How much closer black's pieces are to their own home than white's to theirs.
#[derive(Clone, Copy, Debug)]
pub struct PassivenessDifferential;

impl Heuristic for PassivenessDifferential {
    open spec fn value(&self, pos: Position) -> int {
        normalize(-34, 34, total(pos.holes, 0, Term::TowardsHome) - total(pos.holes, 1, Term::TowardsHome))
    }

    fn score(&self, state: &State) -> (s: i64) {
        let black_score = total_of(&state.board, 0, Term::TowardsHome);
        let white_score = total_of(&state.board, 1, Term::TowardsHome);
        unsigned100_normalize(-34, 34, black_score - white_score)
    }

    open spec fn label(&self) -> Seq<char> {
        "Passive Diff"@
    }

    fn name(&self) -> (name: &'static str) {
        "Passive Diff"
    }
}

/// How much more central black's pieces stand.
#[derive(Clone, Copy, Debug)]
pub struct Centrality;

impl Heuristic for Centrality {
    open spec fn value(&self, pos: Position) -> int {
        normalize(-18, 18, total(pos.holes, 0, Term::Centrality) - total(pos.holes, 1, Term::Centrality))
    }

    fn score(&self, state: &State) -> (s: i64) {
        let black_score = total_of(&state.board, 0, Term::Centrality);
        let white_score = total_of(&state.board, 1, Term::Centrality);
        unsigned100_normalize(-18, 18, black_score - white_score)
    }

    open spec fn label(&self) -> Seq<char> {
        "Centrality"@
    }

    fn name(&self) -> (name: &'static str) {
        "Centrality"
    }
}

/// How much nearer the rim black's pieces stand.
#[derive(Clone, Copy, Debug)]
pub struct AntiCentrality;

impl Heuristic for AntiCentrality {
    open spec fn value(&self, pos: Position) -> int {
        normalize(-30, 30, total(pos.holes, 0, Term::AntiCentrality) - total(pos.holes, 1, Term::AntiCentrality))
    }

    fn score(&self, state: &State) -> (s: i64) {
        let black_score = total_of(&state.board, 0, Term::AntiCentrality);
        let white_score = total_of(&state.board, 1, Term::AntiCentrality);
        unsigned100_normalize(-30, 30, black_score - white_score)
    }

    open spec fn label(&self) -> Seq<char> {
        "Anti Centrality"@
    }

    fn name(&self) -> (name: &'static str) {
        "Anti Centrality"
    }
}

/// How many more empty holes black has straight ahead of its pieces.
#[derive(Clone, Copy, Debug)]
pub struct DefendedHexes;

impl Heuristic for DefendedHexes {
    open spec fn value(&self, pos: Position) -> int {
        normalize(-10, 10, total(pos.holes, 0, Term::FreeAhead) - total(pos.holes, 1, Term::FreeAhead))
    }

    fn score(&self, state: &State) -> (s: i64) {
        let black_score = total_of(&state.board, 0, Term::FreeAhead);
        let white_score = total_of(&state.board, 1, Term::FreeAhead);
        unsigned100_normalize(-10, 10, black_score - white_score)
    }

    open spec fn label(&self) -> Seq<char> {
        "Defended Hexes"@
    }

    fn name(&self) -> (name: &'static str) {
        "Defended Hexes"
    }
}

/// The same empty holes, each weighed by its middle proximity.
#[derive(Clone, Copy, Debug)]
pub struct DefendedHexes_MiddleProximity;

impl Heuristic for DefendedHexes_MiddleProximity {
    open spec fn value(&self, pos: Position) -> int {
        normalize(-37, 37, total(pos.holes, 0, Term::FreeAheadMiddle) - total(pos.holes, 1, Term::FreeAheadMiddle))
    }

    fn score(&self, state: &State) -> (s: i64) {
        let black_score = total_of(&state.board, 0, Term::FreeAheadMiddle);
        let white_score = total_of(&state.board, 1, Term::FreeAheadMiddle);
        unsigned100_normalize(-37, 37, black_score - white_score)
    }

    open spec fn label(&self) -> Seq<char> {
        "Defended Hexes Middle Prox"@
    }

    fn name(&self) -> (name: &'static str) {
        "Defended Hexes Middle Prox"
    }
}

/// How many more of white's exposed pieces lack a piece straight ahead.
#[derive(Clone, Copy, Debug)]
pub struct UndefendedPieces;

impl Heuristic for UndefendedPieces {
    open spec fn value(&self, pos: Position) -> int {
        normalize(
            -10,
            10,
            (total(pos.holes, 1, Term::Exposed) - total(pos.holes, 1, Term::OwnAhead)) - (total(
                pos.holes,
                0,
                Term::Exposed,
            ) - total(pos.holes, 0, Term::OwnAhead)),
        )
    }

    fn score(&self, state: &State) -> (s: i64) {
        let board = &state.board;
        let black_undefended_pieces = total_of(board, 0, Term::Exposed) - total_of(
            board,
            0,
            Term::OwnAhead,
        );
        let white_undefended_pieces = total_of(board, 1, Term::Exposed) - total_of(
            board,
            1,
            Term::OwnAhead,
        );
        unsigned100_normalize(-10, 10, white_undefended_pieces - black_undefended_pieces)
    }

    open spec fn label(&self) -> Seq<char> {
        "Undefended Pieces"@
    }

    fn name(&self) -> (name: &'static str) {
        "Undefended Pieces"
    }
}

/// The middle proximity of white's unbacked pieces less that of black's.
#[derive(Clone, Copy, Debug)]
pub struct UndefendedPieces_MiddleProximity;

impl Heuristic for UndefendedPieces_MiddleProximity {
    open spec fn value(&self, pos: Position) -> int {
        normalize(-37, 37, total(pos.holes, 1, Term::UnbackedMiddle) - total(pos.holes, 0, Term::UnbackedMiddle))
    }

    fn score(&self, state: &State) -> (s: i64) {
        let black_score = total_of(&state.board, 0, Term::UnbackedMiddle);
        let white_score = total_of(&state.board, 1, Term::UnbackedMiddle);
        unsigned100_normalize(-37, 37, white_score - black_score)
    }

    open spec fn label(&self) -> Seq<char> {
        "Undefended Pieces Middle Prox"@
    }

    fn name(&self) -> (name: &'static str) {
        "Undefended Pieces Middle Prox"
    }
}

/// How much more evenly black's middle and side attacks advance.
#[derive(Clone, Copy, Debug)]
pub struct AttackTiming;

impl Heuristic for AttackTiming {
    open spec fn value(&self, pos: Position) -> int {
        normalize(
            -10,
            10,
            gap(peak(pos.holes, 1, Term::TimingMiddle), peak(pos.holes, 1, Term::TimingSide)) - gap(
                peak(pos.holes, 0, Term::TimingMiddle),
                peak(pos.holes, 0, Term::TimingSide),
            ),
        )
    }

    fn score(&self, state: &State) -> (s: i64) {
        let board = &state.board;
        let black_mid = peak_of(board, 0, Term::TimingMiddle);
        let black_side = peak_of(board, 0, Term::TimingSide);
        let black_diff = if black_mid >= black_side {
            black_mid - black_side
        } else {
            black_side - black_mid
        };
        let white_mid = peak_of(board, 1, Term::TimingMiddle);
        let white_side = peak_of(board, 1, Term::TimingSide);
        let white_diff = if white_mid >= white_side {
            white_mid - white_side
        } else {
            white_side - white_mid
        };
        unsigned100_normalize(-10, 10, white_diff - black_diff)
    }

    open spec fn label(&self) -> Seq<char> {
        "Attack in-sync"@
    }

    fn name(&self) -> (name: &'static str) {
        "Attack in-sync"
    }
}

/// How many more steps are open to black than to white.
#[derive(Clone, Copy, Debug)]
pub struct LimitOppoMoves;

impl Heuristic for LimitOppoMoves {
    open spec fn value(&self, pos: Position) -> int {
        normalize(-30, 30, pos.possible_moves(0).len() - pos.possible_moves(1).len())
    }

    fn score(&self, state: &State) -> (s: i64) {
        proof {
            lemma_possible_moves_len(state@, 0);
            lemma_possible_moves_len(state@, 1);
        }
        let black_moves = state.current_possible_moves(0).len() as i64;
        let white_moves = state.current_possible_moves(1).len() as i64;
        unsigned100_normalize(-30, 30, black_moves - white_moves)
    }

    open spec fn label(&self) -> Seq<char> {
        "Limit Oppo Moves"@
    }

    fn name(&self) -> (name: &'static str) {
        "Limit Oppo Moves"
    }
}

/// How many more of black's pieces have one of their own straight ahead.
#[derive(Clone, Copy, Debug)]
pub struct StraightLines;

impl Heuristic for StraightLines {
    open spec fn value(&self, pos: Position) -> int {
        normalize(-8, 8, total(pos.holes, 0, Term::OwnAhead) - total(pos.holes, 1, Term::OwnAhead))
    }

    fn score(&self, state: &State) -> (s: i64) {
        let black_score = total_of(&state.board, 0, Term::OwnAhead);
        let white_score = total_of(&state.board, 1, Term::OwnAhead);
        unsigned100_normalize(-8, 8, black_score - white_score)
    }

    open spec fn label(&self) -> Seq<char> {
        "Straight Lines"@
    }

    fn name(&self) -> (name: &'static str) {
        "Straight Lines"
    }
}

/// The same pieces, each weighed by its middle proximity.
#[derive(Clone, Copy, Debug)]
pub struct StraightLines_MiddleProximity;

impl Heuristic for StraightLines_MiddleProximity {
    open spec fn value(&self, pos: Position) -> int {
        normalize(-42, 42, total(pos.holes, 0, Term::OwnAheadMiddle) - total(pos.holes, 1, Term::OwnAheadMiddle))
    }

    fn score(&self, state: &State) -> (s: i64) {
        let black_score = total_of(&state.board, 0, Term::OwnAheadMiddle);
        let white_score = total_of(&state.board, 1, Term::OwnAheadMiddle);
        unsigned100_normalize(-42, 42, black_score - white_score)
    }

    open spec fn label(&self) -> Seq<char> {
        "Straight Lines Middle Prox"@
    }

    fn name(&self) -> (name: &'static str) {
        "Straight Lines Middle Prox"
    }
}

/// How many more of white's pieces have passed black's foremost piece; decisive at two.
#[derive(Clone, Copy, Debug)]
pub struct AggressivePieces;

impl Heuristic for AggressivePieces {
    open spec fn value(&self, pos: Position) -> int {
        if passed_difference(pos.holes) <= -2 {
            -1000
        } else if passed_difference(pos.holes) >= 2 {
            1000
        } else {
            normalize(-9, 9, passed_difference(pos.holes))
        }
    }

    fn score(&self, state: &State) -> (s: i64) {
        let board = &state.board;
        let black_rows = passing_rows_of(board, 0);
        let white_rows = passing_rows_of(board, 1);
        let diff = total_of(board, 1, Term::Advanced(white_rows)) - total_of(
            board,
            0,
            Term::Advanced(black_rows),
        );
        if diff <= -2 {
            -1000
        } else if diff >= 2 {
            1000
        } else {
            unsigned100_normalize(-9, 9, diff)
        }
    }

    open spec fn label(&self) -> Seq<char> {
        "Aggr Pieces"@
    }

    fn name(&self) -> (name: &'static str) {
        "Aggr Pieces"
    }
}

/// The middle proximity of the pieces that have passed the other side's foremost.
#[derive(Clone, Copy, Debug)]
pub struct AggressivePieces_MiddleProximity;

impl Heuristic for AggressivePieces_MiddleProximity {
    open spec fn value(&self, pos: Position) -> int {
        if passed_difference(pos.holes) <= -2 {
            -1000
        } else if passed_difference(pos.holes) >= 2 {
            1000
        } else {
            normalize(
                -12,
                12,
                total(pos.holes, 1, Term::AdvancedMiddle(passing_rows(pos.holes, 1) as i64)) - total(
                    pos.holes,
                    0,
                    Term::AdvancedMiddle(passing_rows(pos.holes, 0) as i64),
                ),
            )
        }
    }

    fn score(&self, state: &State) -> (s: i64) {
        let board = &state.board;
        let black_rows = passing_rows_of(board, 0);
        let white_rows = passing_rows_of(board, 1);
        let black_score = total_of(board, 0, Term::AdvancedMiddle(black_rows));
        let white_score = total_of(board, 1, Term::AdvancedMiddle(white_rows));
        let diff = total_of(board, 1, Term::Advanced(white_rows)) - total_of(
            board,
            0,
            Term::Advanced(black_rows),
        );
        if diff <= -2 {
            -1000
        } else if diff >= 2 {
            1000
        } else {
            unsigned100_normalize(-12, 12, white_score - black_score)
        }
    }

    open spec fn label(&self) -> Seq<char> {
        "Aggr Pieces Middle Prox"@
    }

    fn name(&self) -> (name: &'static str) {
        "Aggr Pieces Middle Prox"
    }
}

/// The anti-centrality of the pieces that have passed the other side's foremost.
#[derive(Clone, Copy, Debug)]
pub struct AggressivePieces_AntiCentrality;

impl Heuristic for AggressivePieces_AntiCentrality {
    open spec fn value(&self, pos: Position) -> int {
        if passed_difference(pos.holes) <= -2 {
            -1000
        } else if passed_difference(pos.holes) >= 2 {
            1000
        } else {
            normalize(
                -6,
                6,
                total(pos.holes, 1, Term::AdvancedRim(passing_rows(pos.holes, 1) as i64)) - total(
                    pos.holes,
                    0,
                    Term::AdvancedRim(passing_rows(pos.holes, 0) as i64),
                ),
            )
        }
    }

    fn score(&self, state: &State) -> (s: i64) {
        let board = &state.board;
        let black_rows = passing_rows_of(board, 0);
        let white_rows = passing_rows_of(board, 1);
        let black_score = total_of(board, 0, Term::AdvancedRim(black_rows));
        let white_score = total_of(board, 1, Term::AdvancedRim(white_rows));
        let diff = total_of(board, 1, Term::Advanced(white_rows)) - total_of(
            board,
            0,
            Term::Advanced(black_rows),
        );
        if diff <= -2 {
            -1000
        } else if diff >= 2 {
            1000
        } else {
            unsigned100_normalize(-6, 6, white_score - black_score)
        }
    }

    open spec fn label(&self) -> Seq<char> {
        "Aggr Pieces Anti Centrality"@
    }

    fn name(&self) -> (name: &'static str) {
        "Aggr Pieces Anti Centrality"
    }
}

/// The closed set of heuristics.
#[derive(Clone, Copy, Debug)]
pub enum Heuristics {
    PieceDifferential(PieceDifferential),
    MiddleLineDifferential(MiddleLineDifferential),
    ImportantPieces(ImportantPieces),
    MiddleProximity(MiddleProximity),
    AggressionDifferential(AggressionDifferential),
    PassivenessDifferential(PassivenessDifferential),
    Centrality(Centrality),
    AntiCentrality(AntiCentrality),
    DefendedHexes(DefendedHexes),
    DefendedHexes_MiddleProximity(DefendedHexes_MiddleProximity),
    UndefendedPieces(UndefendedPieces),
    UndefendedPieces_MiddleProximity(UndefendedPieces_MiddleProximity),
    AttackTiming(AttackTiming),
    LimitOppoMoves(LimitOppoMoves),
    StraightLines(StraightLines),
    StraightLines_MiddleProximity(StraightLines_MiddleProximity),
    AggressivePieces(AggressivePieces),
    AggressivePieces_MiddleProximity(AggressivePieces_MiddleProximity),
    AggressivePieces_AntiCentrality(AggressivePieces_AntiCentrality),
}

impl Heuristic for Heuristics {
    open spec fn value(&self, pos: Position) -> int {
        match self {
            Heuristics::PieceDifferential(h) => h.value(pos),
            Heuristics::MiddleLineDifferential(h) => h.value(pos),
            Heuristics::ImportantPieces(h) => h.value(pos),
            Heuristics::MiddleProximity(h) => h.value(pos),
            Heuristics::AggressionDifferential(h) => h.value(pos),
            Heuristics::PassivenessDifferential(h) => h.value(pos),
            Heuristics::Centrality(h) => h.value(pos),
            Heuristics::AntiCentrality(h) => h.value(pos),
            Heuristics::DefendedHexes(h) => h.value(pos),
            Heuristics::DefendedHexes_MiddleProximity(h) => h.value(pos),
            Heuristics::UndefendedPieces(h) => h.value(pos),
            Heuristics::UndefendedPieces_MiddleProximity(h) => h.value(pos),
            Heuristics::AttackTiming(h) => h.value(pos),
            Heuristics::LimitOppoMoves(h) => h.value(pos),
            Heuristics::StraightLines(h) => h.value(pos),
            Heuristics::StraightLines_MiddleProximity(h) => h.value(pos),
            Heuristics::AggressivePieces(h) => h.value(pos),
            Heuristics::AggressivePieces_MiddleProximity(h) => h.value(pos),
            Heuristics::AggressivePieces_AntiCentrality(h) => h.value(pos),
        }
    }

    fn score(&self, state: &State) -> (s: i64) {
        match self {
            Heuristics::PieceDifferential(h) => h.score(state),
            Heuristics::MiddleLineDifferential(h) => h.score(state),
            Heuristics::ImportantPieces(h) => h.score(state),
            Heuristics::MiddleProximity(h) => h.score(state),
            Heuristics::AggressionDifferential(h) => h.score(state),
            Heuristics::PassivenessDifferential(h) => h.score(state),
            Heuristics::Centrality(h) => h.score(state),
            Heuristics::AntiCentrality(h) => h.score(state),
            Heuristics::DefendedHexes(h) => h.score(state),
            Heuristics::DefendedHexes_MiddleProximity(h) => h.score(state),
            Heuristics::UndefendedPieces(h) => h.score(state),
            Heuristics::UndefendedPieces_MiddleProximity(h) => h.score(state),
            Heuristics::AttackTiming(h) => h.score(state),
            Heuristics::LimitOppoMoves(h) => h.score(state),
            Heuristics::StraightLines(h) => h.score(state),
            Heuristics::StraightLines_MiddleProximity(h) => h.score(state),
            Heuristics::AggressivePieces(h) => h.score(state),
            Heuristics::AggressivePieces_MiddleProximity(h) => h.score(state),
            Heuristics::AggressivePieces_AntiCentrality(h) => h.score(state),
        }
    }

    open spec fn label(&self) -> Seq<char> {
        match self {
            Heuristics::PieceDifferential(h) => h.label(),
            Heuristics::MiddleLineDifferential(h) => h.label(),
            Heuristics::ImportantPieces(h) => h.label(),
            Heuristics::MiddleProximity(h) => h.label(),
            Heuristics::AggressionDifferential(h) => h.label(),
            Heuristics::PassivenessDifferential(h) => h.label(),
            Heuristics::Centrality(h) => h.label(),
            Heuristics::AntiCentrality(h) => h.label(),
            Heuristics::DefendedHexes(h) => h.label(),
            Heuristics::DefendedHexes_MiddleProximity(h) => h.label(),
            Heuristics::UndefendedPieces(h) => h.label(),
            Heuristics::UndefendedPieces_MiddleProximity(h) => h.label(),
            Heuristics::AttackTiming(h) => h.label(),
            Heuristics::LimitOppoMoves(h) => h.label(),
            Heuristics::StraightLines(h) => h.label(),
            Heuristics::StraightLines_MiddleProximity(h) => h.label(),
            Heuristics::AggressivePieces(h) => h.label(),
            Heuristics::AggressivePieces_MiddleProximity(h) => h.label(),
            Heuristics::AggressivePieces_AntiCentrality(h) => h.label(),
        }
    }

    fn name(&self) -> (name: &'static str) {
        match self {
            Heuristics::PieceDifferential(h) => h.name(),
            Heuristics::MiddleLineDifferential(h) => h.name(),
            Heuristics::ImportantPieces(h) => h.name(),
            Heuristics::MiddleProximity(h) => h.name(),
            Heuristics::AggressionDifferential(h) => h.name(),
            Heuristics::PassivenessDifferential(h) => h.name(),
            Heuristics::Centrality(h) => h.name(),
            Heuristics::AntiCentrality(h) => h.name(),
            Heuristics::DefendedHexes(h) => h.name(),
            Heuristics::DefendedHexes_MiddleProximity(h) => h.name(),
            Heuristics::UndefendedPieces(h) => h.name(),
            Heuristics::UndefendedPieces_MiddleProximity(h) => h.name(),
            Heuristics::AttackTiming(h) => h.name(),
            Heuristics::LimitOppoMoves(h) => h.name(),
            Heuristics::StraightLines(h) => h.name(),
            Heuristics::StraightLines_MiddleProximity(h) => h.name(),
            Heuristics::AggressivePieces(h) => h.name(),
            Heuristics::AggressivePieces_MiddleProximity(h) => h.name(),
            Heuristics::AggressivePieces_AntiCentrality(h) => h.name(),
        }
    }
}

/// The heuristic at position `i` of the fixed order that the weights follow.
pub open spec fn heuristic_at(i: int) -> Heuristics {
    if i == 0 {
        Heuristics::PieceDifferential(PieceDifferential)
    } else if i == 1 {
        Heuristics::MiddleLineDifferential(MiddleLineDifferential)
    } else if i == 2 {
        Heuristics::ImportantPieces(ImportantPieces)
    } else if i == 3 {
        Heuristics::MiddleProximity(MiddleProximity)
    } else if i == 4 {
        Heuristics::AggressionDifferential(AggressionDifferential)
    } else if i == 5 {
        Heuristics::PassivenessDifferential(PassivenessDifferential)
    } else if i == 6 {
        Heuristics::Centrality(Centrality)
    } else if i == 7 {
        Heuristics::AntiCentrality(AntiCentrality)
    } else if i == 8 {
        Heuristics::DefendedHexes(DefendedHexes)
    } else if i == 9 {
        Heuristics::DefendedHexes_MiddleProximity(DefendedHexes_MiddleProximity)
    } else if i == 10 {
        Heuristics::UndefendedPieces(UndefendedPieces)
    } else if i == 11 {
        Heuristics::UndefendedPieces_MiddleProximity(UndefendedPieces_MiddleProximity)
    } else if i == 12 {
        Heuristics::AttackTiming(AttackTiming)
    } else if i == 13 {
        Heuristics::LimitOppoMoves(LimitOppoMoves)
    } else if i == 14 {
        Heuristics::StraightLines(StraightLines)
    } else if i == 15 {
        Heuristics::StraightLines_MiddleProximity(StraightLines_MiddleProximity)
    } else if i == 16 {
        Heuristics::AggressivePieces(AggressivePieces)
    } else if i == 17 {
        Heuristics::AggressivePieces_MiddleProximity(AggressivePieces_MiddleProximity)
    } else {
        Heuristics::AggressivePieces_AntiCentrality(AggressivePieces_AntiCentrality)
    }
}

/// The heuristics in the fixed order that the weights follow.
pub fn all_heuristics() -> (functions: [Heuristics; 19])
    ensures
        forall|i: int| 0 <= i < 19 ==> #[trigger] functions[i] == heuristic_at(i),
{
    [
        Heuristics::PieceDifferential(PieceDifferential),
        Heuristics::MiddleLineDifferential(MiddleLineDifferential),
        Heuristics::ImportantPieces(ImportantPieces),
        Heuristics::MiddleProximity(MiddleProximity),
        Heuristics::AggressionDifferential(AggressionDifferential),
        Heuristics::PassivenessDifferential(PassivenessDifferential),
        Heuristics::Centrality(Centrality),
        Heuristics::AntiCentrality(AntiCentrality),
        Heuristics::DefendedHexes(DefendedHexes),
        Heuristics::DefendedHexes_MiddleProximity(DefendedHexes_MiddleProximity),
        Heuristics::UndefendedPieces(UndefendedPieces),
        Heuristics::UndefendedPieces_MiddleProximity(UndefendedPieces_MiddleProximity),
        Heuristics::AttackTiming(AttackTiming),
        Heuristics::LimitOppoMoves(LimitOppoMoves),
        Heuristics::StraightLines(StraightLines),
        Heuristics::StraightLines_MiddleProximity(StraightLines_MiddleProximity),
        Heuristics::AggressivePieces(AggressivePieces),
        Heuristics::AggressivePieces_MiddleProximity(AggressivePieces_MiddleProximity),
        Heuristics::AggressivePieces_AntiCentrality(AggressivePieces_AntiCentrality),
    ]
}


/// One weight per heuristic, in the order of [`heuristic_at`]. A weight is
/// a fixed-point number: [`WEIGHT_ONE`] stands for 1.
pub type Weights = [i64; 19];

/// The fixed-point representation of the weight 1.
pub const WEIGHT_ONE: i64 = 1_000_000;

/// The score of a position that black has won.
pub const WIN: i128 = i128::MAX;

/// The score of a position that white has won.
pub const LOSS: i128 = i128::MIN;

/// The sum of the first `n` weights.
pub open spec fn weight_sum(weights: Seq<i64>, n: int) -> int
    decreases n,
{
    if n <= 0 {
        0
    } else {
        weight_sum(weights, n - 1) + weights[n - 1]
    }
}

/// A weight divided by the sum of all, in fixed point.
pub open spec fn normalized_weight(weights: Seq<i64>, i: int) -> int {
    trunc_div(weights[i] * WEIGHT_ONE, weight_sum(weights, 19))
}

/// Weights can be normalized where their sum is not 0 and each quotient
/// fits the weight type.
pub open spec fn normalizable(weights: Seq<i64>) -> bool {
    &&& weight_sum(weights, 19) != 0
    &&& forall|i: int|
        0 <= i < 19 ==> i64::MIN <= #[trigger] normalized_weight(weights, i) <= i64::MAX
}

/// The weights of the first `n` heuristics times their values on `pos`,
/// summed.
pub open spec fn weighted_sum(weights: Seq<i64>, pos: Position, n: int) -> int
    decreases n,
{
    if n <= 0 {
        0
    } else {
        weighted_sum(weights, pos, n - 1) + weights[n - 1] * heuristic_at(n - 1).value(pos)
    }
}

/// The evaluation of a position: [`WIN`] or [`LOSS`] where the game is
/// over and won, else the weighted sum of all heuristics.
pub open spec fn evaluate(weights: Seq<i64>, pos: Position) -> int {
    if !pos.active && pos.winner == Some(0u8) {
        WIN as int
    } else if !pos.active && pos.winner == Some(1u8) {
        LOSS as int
    } else {
        weighted_sum(weights, pos, 19)
    }
}

/// A raw score of small magnitude stays within the score bound after it is
/// normalized.
pub proof fn lemma_normalize_bound(m: int, v: int)
    requires
        0 < m <= 100,
        -450 <= v <= 450,
    ensures
        -SCORE_BOUND <= normalize(-m, m, v) <= SCORE_BOUND,
{
    lemma_trunc_div_bound(2000 * (v + m), 2 * m);
}

/// Every total over a player's pieces lies between 0 and 222, and every
/// peak between 0 and 6.
pub proof fn lemma_total_bounds(holes: Seq<Hole>, turn: u8, term: Term)
    requires
        holes.len() == 37,
    ensures
        0 <= total(holes, turn, term) <= 222,
        0 <= peak(holes, turn, term) <= 6,
        pieces_of(holes, turn).len() <= 37,
{
    crate::game::board::lemma_pieces_below(holes, piece_of_turn(turn), 37);
    let pieces = pieces_of(holes, turn);
    lemma_sum_bounds(holes, turn, term, pieces, pieces.len() as int);
}

/// No heuristic leaves the score bound on any position.
pub proof fn lemma_value_bounds(pos: Position, i: int)
    requires
        pos.holes.len() == 37,
        0 <= i < 19,
    ensures
        -SCORE_BOUND <= heuristic_at(i).value(pos) <= SCORE_BOUND,
{
    let holes = pos.holes;
    lemma_total_bounds(holes, 0, Term::Unit);
    lemma_total_bounds(holes, 1, Term::Unit);
    lemma_possible_moves_len(pos, 0);
    lemma_possible_moves_len(pos, 1);
    lemma_total_bounds(holes, 0, Term::Advanced(passing_rows(holes, 0) as i64));
    lemma_total_bounds(holes, 1, Term::Advanced(passing_rows(holes, 1) as i64));
    if i == 0 {
        lemma_normalize_bound(10, pieces_of(holes, 0).len() - pieces_of(holes, 1).len());
        assert(heuristic_at(i).value(pos) == PieceDifferential.value(pos));
    } else if i == 1 {
        lemma_total_bounds(holes, 0, Term::MiddleLine);
        lemma_total_bounds(holes, 1, Term::MiddleLine);
        lemma_normalize_bound(7, total(holes, 0, Term::MiddleLine) - total(holes, 1, Term::MiddleLine));
        assert(heuristic_at(i).value(pos) == MiddleLineDifferential.value(pos));
    } else if i == 2 {
        lemma_total_bounds(holes, 0, Term::Important);
        lemma_total_bounds(holes, 1, Term::Important);
        lemma_normalize_bound(5, total(holes, 0, Term::Important) - total(holes, 1, Term::Important));
        assert(heuristic_at(i).value(pos) == ImportantPieces.value(pos));
    } else if i == 3 {
        lemma_total_bounds(holes, 0, Term::MiddleProximity);
        lemma_total_bounds(holes, 1, Term::MiddleProximity);
        lemma_normalize_bound(51, total(holes, 0, Term::MiddleProximity) - total(holes, 1, Term::MiddleProximity));
        assert(heuristic_at(i).value(pos) == MiddleProximity.value(pos));
    } else if i == 4 {
        lemma_total_bounds(holes, 0, Term::TowardsOpponent);
        lemma_total_bounds(holes, 1, Term::TowardsOpponent);
        lemma_normalize_bound(34, total(holes, 0, Term::TowardsOpponent) - total(holes, 1, Term::TowardsOpponent));
        assert(heuristic_at(i).value(pos) == AggressionDifferential.value(pos));
    } else if i == 5 {
        lemma_total_bounds(holes, 0, Term::TowardsHome);
        lemma_total_bounds(holes, 1, Term::TowardsHome);
        lemma_normalize_bound(34, total(holes, 0, Term::TowardsHome) - total(holes, 1, Term::TowardsHome));
        assert(heuristic_at(i).value(pos) == PassivenessDifferential.value(pos));
    } else if i == 6 {
        lemma_total_bounds(holes, 0, Term::Centrality);
        lemma_total_bounds(holes, 1, Term::Centrality);
        lemma_normalize_bound(18, total(holes, 0, Term::Centrality) - total(holes, 1, Term::Centrality));
        assert(heuristic_at(i).value(pos) == Centrality.value(pos));
    } else if i == 7 {
        lemma_total_bounds(holes, 0, Term::AntiCentrality);
        lemma_total_bounds(holes, 1, Term::AntiCentrality);
        lemma_normalize_bound(30, total(holes, 0, Term::AntiCentrality) - total(holes, 1, Term::AntiCentrality));
        assert(heuristic_at(i).value(pos) == AntiCentrality.value(pos));
    } else if i == 8 {
        lemma_total_bounds(holes, 0, Term::FreeAhead);
        lemma_total_bounds(holes, 1, Term::FreeAhead);
        lemma_normalize_bound(10, total(holes, 0, Term::FreeAhead) - total(holes, 1, Term::FreeAhead));
        assert(heuristic_at(i).value(pos) == DefendedHexes.value(pos));
    } else if i == 9 {
        lemma_total_bounds(holes, 0, Term::FreeAheadMiddle);
        lemma_total_bounds(holes, 1, Term::FreeAheadMiddle);
        lemma_normalize_bound(37, total(holes, 0, Term::FreeAheadMiddle) - total(holes, 1, Term::FreeAheadMiddle));
        assert(heuristic_at(i).value(pos) == DefendedHexes_MiddleProximity.value(pos));
    } else if i == 10 {
        lemma_total_bounds(holes, 1, Term::Exposed);
        lemma_total_bounds(holes, 1, Term::OwnAhead);
        lemma_total_bounds(holes, 0, Term::Exposed);
        lemma_total_bounds(holes, 0, Term::OwnAhead);
        lemma_normalize_bound(10, (total(holes, 1, Term::Exposed) - total(holes, 1, Term::OwnAhead)) - (total(holes, 0, Term::Exposed) - total(holes, 0, Term::OwnAhead)));
        assert(heuristic_at(i).value(pos) == UndefendedPieces.value(pos));
    } else if i == 11 {
        lemma_total_bounds(holes, 1, Term::UnbackedMiddle);
        lemma_total_bounds(holes, 0, Term::UnbackedMiddle);
        lemma_normalize_bound(37, total(holes, 1, Term::UnbackedMiddle) - total(holes, 0, Term::UnbackedMiddle));
        assert(heuristic_at(i).value(pos) == UndefendedPieces_MiddleProximity.value(pos));
    } else if i == 12 {
        lemma_total_bounds(holes, 1, Term::TimingMiddle);
        lemma_total_bounds(holes, 1, Term::TimingSide);
        lemma_total_bounds(holes, 0, Term::TimingMiddle);
        lemma_total_bounds(holes, 0, Term::TimingSide);
        lemma_normalize_bound(10, gap(peak(holes, 1, Term::TimingMiddle), peak(holes, 1, Term::TimingSide)) - gap(peak(holes, 0, Term::TimingMiddle), peak(holes, 0, Term::TimingSide)));
        assert(heuristic_at(i).value(pos) == AttackTiming.value(pos));
    } else if i == 13 {
        lemma_normalize_bound(30, pos.possible_moves(0).len() - pos.possible_moves(1).len());
        assert(heuristic_at(i).value(pos) == LimitOppoMoves.value(pos));
    } else if i == 14 {
        lemma_total_bounds(holes, 0, Term::OwnAhead);
        lemma_total_bounds(holes, 1, Term::OwnAhead);
        lemma_normalize_bound(8, total(holes, 0, Term::OwnAhead) - total(holes, 1, Term::OwnAhead));
        assert(heuristic_at(i).value(pos) == StraightLines.value(pos));
    } else if i == 15 {
        lemma_total_bounds(holes, 0, Term::OwnAheadMiddle);
        lemma_total_bounds(holes, 1, Term::OwnAheadMiddle);
        lemma_normalize_bound(42, total(holes, 0, Term::OwnAheadMiddle) - total(holes, 1, Term::OwnAheadMiddle));
        assert(heuristic_at(i).value(pos) == StraightLines_MiddleProximity.value(pos));
    } else if i == 16 {
        lemma_normalize_bound(9, passed_difference(holes));
        assert(heuristic_at(i).value(pos) == AggressivePieces.value(pos));
    } else if i == 17 {
        lemma_total_bounds(holes, 1, Term::AdvancedMiddle(passing_rows(holes, 1) as i64));
        lemma_total_bounds(holes, 0, Term::AdvancedMiddle(passing_rows(holes, 0) as i64));
        lemma_normalize_bound(12, total(holes, 1, Term::AdvancedMiddle(passing_rows(holes, 1) as i64)) - total(holes, 0, Term::AdvancedMiddle(passing_rows(holes, 0) as i64)));
        assert(heuristic_at(i).value(pos) == AggressivePieces_MiddleProximity.value(pos));
    } else if i == 18 {
        lemma_total_bounds(holes, 1, Term::AdvancedRim(passing_rows(holes, 1) as i64));
        lemma_total_bounds(holes, 0, Term::AdvancedRim(passing_rows(holes, 0) as i64));
        lemma_normalize_bound(6, total(holes, 1, Term::AdvancedRim(passing_rows(holes, 1) as i64)) - total(holes, 0, Term::AdvancedRim(passing_rows(holes, 0) as i64)));
        assert(heuristic_at(i).value(pos) == AggressivePieces_AntiCentrality.value(pos));
    }
}

/// The evaluation of a well-formed position is a score, and it is [`WIN`]
/// or [`LOSS`] only where the game is over and won.
pub proof fn lemma_evaluate_range(weights: Seq<i64>, pos: Position)
    requires
        weights.len() == 19,
        pos.holes.len() == 37,
    ensures
        LOSS <= evaluate(weights, pos) <= WIN,
        evaluate(weights, pos) == WIN <==> !pos.active && pos.winner == Some(0u8),
        evaluate(weights, pos) == LOSS <==> !pos.active && pos.winner == Some(1u8),
{
    assert forall|i: int| 0 <= i < 19 implies -SCORE_BOUND <= #[trigger] heuristic_at(i).value(pos)
        <= SCORE_BOUND by {
        lemma_value_bounds(pos, i);
    }
    lemma_weighted_sum_bounds(weights, pos, 19);
}

/// The bound that no product of a weight and a heuristic value exceeds.
pub open spec fn term_bound() -> int {
    0x8000_0000_0000_0000 * SCORE_BOUND
}

/// A weighted sum of `n` heuristics stays within `n` term bounds, as long
/// as the values do.
pub proof fn lemma_weighted_sum_bounds(weights: Seq<i64>, pos: Position, n: int)
    requires
        0 <= n <= 19,
        weights.len() == 19,
        forall|i: int|
            0 <= i < 19 ==> -SCORE_BOUND <= #[trigger] heuristic_at(i).value(pos) <= SCORE_BOUND,
    ensures
        -n * term_bound() <= weighted_sum(weights, pos, n) <= n * term_bound(),
    decreases n,
{
    if n > 0 {
        lemma_weighted_sum_bounds(weights, pos, n - 1);
        let w = weights[n - 1] as int;
        let v = heuristic_at(n - 1).value(pos);
        lemma_product_bound(w, v);
        assert(-n * term_bound() == -(n - 1) * term_bound() - term_bound()) by (nonlinear_arith);
        assert(n * term_bound() == (n - 1) * term_bound() + term_bound()) by (nonlinear_arith);
    }
}

/// A weight times a bounded value stays within the term bound.
pub proof fn lemma_product_bound(w: int, v: int)
    requires
        i64::MIN <= w <= i64::MAX,
        -SCORE_BOUND <= v <= SCORE_BOUND,
    ensures
        -term_bound() <= w * v <= term_bound(),
{
    assert(-0x8000_0000_0000_0000 * 2_000_000 <= w * v <= 0x8000_0000_0000_0000 * 2_000_000)
        by (nonlinear_arith)
        requires
            -0x8000_0000_0000_0000 <= w <= 0x8000_0000_0000_0000,
            -2_000_000 <= v <= 2_000_000,
    ;
}

/// Divides each weight by the sum of all, so that they sum to about 1.
/// Where the sum is 0, or a quotient does not fit, the weights stay as
/// they are.
pub fn normalize_weights(w: &mut Weights)
    ensures
        normalizable(old(w)@) ==> forall|i: int|
            0 <= i < 19 ==> #[trigger] final(w)[i] == normalized_weight(old(w)@, i),
        !normalizable(old(w)@) ==> *final(w) == *old(w),
{
    let ghost before = w@;
    let mut sum: i128 = 0;
    let mut i: usize = 0;
    while i < 19
        invariant
            i <= 19,
            w@ == before,
            sum == weight_sum(before, i as int),
            -(i as int) * 0x8000_0000_0000_0000 <= sum <= (i as int) * 0x8000_0000_0000_0000,
        decreases 19 - i,
    {
        sum = sum + w[i] as i128;
        i += 1;
    }
    if sum == 0 {
        return ;
    }
    let mut scaled: [i64; 19] = [0;19];
    let mut j: usize = 0;
    while j < 19
        invariant
            j <= 19,
            w@ == before,
            sum == weight_sum(before, 19),
            sum != 0,
            forall|k: int|
                0 <= k < j ==> i64::MIN <= #[trigger] normalized_weight(before, k) <= i64::MAX,
            forall|k: int| 0 <= k < j ==> #[trigger] scaled[k] == normalized_weight(before, k),
        decreases 19 - j,
    {
        let numerator: i128 = (w[j] as i128) * (WEIGHT_ONE as i128);
        let quotient = match numerator.checked_div(sum) {
            Some(q) => q,
            None => {
                assert(false);
                0
            },
        };
        assert(quotient == normalized_weight(before, j as int));
        if quotient < i64::MIN as i128 || quotient > i64::MAX as i128 {
            return ;
        }
        scaled[j] = quotient as i64;
        j += 1;
    }
    *w = scaled;
}

/// The heuristics together with their weights: the evaluator of the search.
#[derive(Clone, Copy, Debug)]
pub struct HeuristicWeights {
    functions: [Heuristics; 19],
    weights: Weights,
}

impl View for HeuristicWeights {
    type V = Seq<i64>;

    /// The weights, in the order of [`heuristic_at`].
    closed spec fn view(&self) -> Seq<i64> {
        self.weights@
    }
}

impl HeuristicWeights {
    #[verifier::type_invariant]
    spec fn in_order(self) -> bool {
        forall|i: int| 0 <= i < 19 ==> #[trigger] self.functions[i] == heuristic_at(i)
    }

    /// There is one weight for each heuristic.
    pub proof fn lemma_view_len(&self)
        ensures
            self@.len() == 19,
    {
    }

    /// The evaluator with the given weights.
    pub fn new(weights: Weights) -> (hw: Self)
        ensures
            hw@ == weights@,
    {
        HeuristicWeights { functions: all_heuristics(), weights }
    }

    /// The weights.
    pub fn weights(&self) -> (w: Weights)
        ensures
            w@ == self@,
    {
        self.weights
    }

    /// The evaluator paired with a state, for a report of that state.
    pub fn new_with_state(&self, state: &State) -> (report: HeuristicWeightsWithState)
        ensures
            report.heuristic_weights@ == self@,
            report.state == *state,
    {
        HeuristicWeightsWithState { heuristic_weights: *self, state: *state }
    }

    /// The evaluation of `state`: [`WIN`] or [`LOSS`] where the game is
    /// over and won, else the weighted sum of all heuristics.
    pub fn score(&self, state: &State) -> (s: i128)
        ensures
            s == evaluate(self@, state@),
    {
        if !state.active {
            match state.winner {
                Some(w) => {
                    if w == 0 {
                        return WIN;
                    } else if w == 1 {
                        return LOSS;
                    }
                },
                None => {},
            }
        }
        proof {
            use_type_invariant(self);
        }
        let mut result: i128 = 0;
        let mut i: usize = 0;
        while i < 19
            invariant
                i <= 19,
                self.in_order(),
                result == weighted_sum(self@, state@, i as int),
                -(i as int) * term_bound() <= result <= (i as int) * term_bound(),
            decreases 19 - i,
        {
            let v = self.functions[i].score(state);
            let w = self.weights[i];
            proof {
                lemma_product_bound(w as int, v as int);
                assert(-(i as int + 1) * term_bound() == -(i as int) * term_bound() - term_bound())
                    by (nonlinear_arith);
                assert((i as int + 1) * term_bound() == (i as int) * term_bound() + term_bound())
                    by (nonlinear_arith);
            }
            let weighted_score = (w as i128) * (v as i128);
            result = result + weighted_score;
            i += 1;
        }
        result
    }

    /// The scores of all heuristics on `state`, in their fixed order.
    pub fn breakdown(&self, state: &State) -> (scores: Vec<i64>)
        ensures
            scores@.len() == 19,
            forall|i: int| 0 <= i < 19 ==> #[trigger] scores@[i] == heuristic_at(i).value(state@),
    {
        proof {
            use_type_invariant(self);
        }
        let mut scores: Vec<i64> = Vec::new();
        let mut i: usize = 0;
        while i < 19
            invariant
                i <= 19,
                self.in_order(),
                scores@.len() == i,
                forall|k: int| 0 <= k < i ==> #[trigger] scores@[k] == heuristic_at(k).value(state@),
            decreases 19 - i,
        {
            scores.push(self.functions[i].score(state));
            i += 1;
        }
        scores
    }

    /// The names of all heuristics, in their fixed order.
    pub fn names(&self) -> (names: Vec<&'static str>)
        ensures
            names@.len() == 19,
            forall|i: int| 0 <= i < 19 ==> (#[trigger] names@[i])@ == heuristic_at(i).label(),
    {
        proof {
            use_type_invariant(self);
        }
        let mut names: Vec<&'static str> = Vec::new();
        let mut i: usize = 0;
        while i < 19
            invariant
                i <= 19,
                self.in_order(),
                names@.len() == i,
                forall|k: int| 0 <= k < i ==> (#[trigger] names@[k])@ == heuristic_at(k).label(),
            decreases 19 - i,
        {
            names.push(self.functions[i].name());
            i += 1;
        }
        names
    }

    /// The evaluator paired with `state` and with the state that the step
    /// `m` leads to, for a report of what the step changes.
    pub fn new_with_state_and_move(&self, state: State, m: Move) -> (report:
        HeuristicWeightsWithTwoStates)
        requires
            state.wf(),
            line_playable(state@, seq![m], 1),
        ensures
            report.heuristic_weights@ == self@,
            report.old_state == state,
            report.new_state@ == state@.play(m.origin(), m.dest()),
    {
        let mut state = state;
        let old_state = state;
        let (origin, dest) = match m {
            Move::Diagonal(o, d) => (o, d),
            Move::Straight(o, d) => (o, d),
        };
        assert(play_line(state@, seq![m], 0) == state@);
        let done = state.move_piece(origin, dest, true);
        HeuristicWeightsWithTwoStates { heuristic_weights: *self, old_state, new_state: state }
    }

    /// The evaluator paired with `state` and with the state that the steps
    /// of `moves`, played in turn, lead to.
    pub fn new_with_state_and_moves(&self, state: State, moves: &Vec<Move>) -> (report:
        HeuristicWeightsWithTwoStates)
        requires
            state.wf(),
            line_playable(state@, moves@, moves@.len() as int),
        ensures
            report.heuristic_weights@ == self@,
            report.old_state == state,
            report.new_state@ == play_line(state@, moves@, moves@.len() as int),
    {
        let old_state = state;
        let mut state = state;
        let mut i: usize = 0;
        while i < moves.len()
            invariant
                i <= moves.len(),
                state.wf(),
                line_playable(old_state@, moves@, moves@.len() as int),
                state@ == play_line(old_state@, moves@, i as int),
            decreases moves.len() - i,
        {
            let (origin, dest) = match moves[i] {
                Move::Diagonal(o, d) => (o, d),
                Move::Straight(o, d) => (o, d),
            };
            proof {
                lemma_line_playable_prefix(old_state@, moves@, moves@.len() as int, i as int + 1);
            }
            let done = state.move_piece(origin, dest, true);
            i += 1;
        }
        HeuristicWeightsWithTwoStates { heuristic_weights: *self, old_state, new_state: state }
    }
}

/// An evaluator and the state it reports on.
#[derive(Clone, Copy, Debug)]
pub struct HeuristicWeightsWithState {
    pub heuristic_weights: HeuristicWeights,
    pub state: State,
}

impl HeuristicWeightsWithState {
    /// The evaluation of the state.
    pub fn total(&self) -> (s: i128)
        ensures
            s == evaluate(self.heuristic_weights@, self.state@),
    {
        self.heuristic_weights.score(&self.state)
    }
}

/// An evaluator, a state, and the state that a line of play leads to.
#[derive(Clone, Copy, Debug)]
pub struct HeuristicWeightsWithTwoStates {
    pub heuristic_weights: HeuristicWeights,
    pub old_state: State,
    pub new_state: State,
}

impl HeuristicWeightsWithTwoStates {
    /// The evaluations of the state before and of the state after.
    pub fn totals(&self) -> (s: (i128, i128))
        ensures
            s.0 == evaluate(self.heuristic_weights@, self.old_state@),
            s.1 == evaluate(self.heuristic_weights@, self.new_state@),
    {
        (self.heuristic_weights.score(&self.old_state), self.heuristic_weights.score(&self.new_state))
    }
}

} // verus!
