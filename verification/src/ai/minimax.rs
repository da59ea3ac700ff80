//! The mathematics of the search: plain minimax, the alpha-beta search
//! that the tree runs, and what relates the two.

use super::heuristics::{evaluate, lemma_evaluate_range, LOSS, WIN};
use crate::game::board::Move;
use crate::game::gamestate::{play_line, Position};
use vstd::prelude::*;

verus! {

/// The steps that the search tries in a position: those of the player to
/// move.
pub open spec fn search_moves(pos: Position) -> Seq<Move> {
    pos.possible_moves(pos.current_turn)
}

/// The step that the search tries as number `k` in a position. The search
/// walks the steps from the last listed to the first.
pub open spec fn visit_move(pos: Position, k: int) -> Move {
    search_moves(pos)[search_moves(pos).len() - 1 - k]
}

/// The position that the step tried as number `k` leads to.
pub open spec fn visit_child(pos: Position, k: int) -> Position {
    pos.play(visit_move(pos, k).origin(), visit_move(pos, k).dest())
}

/// Where a value function starts from: the worst score for its side.
pub open spec fn worst(maximizing: bool) -> int {
    if maximizing {
        LOSS as int
    } else {
        WIN as int
    }
}

/// The better of two scores for the side that is choosing.
pub open spec fn better(maximizing: bool, a: int, b: int) -> int {
    if maximizing {
        if a >= b {
            a
        } else {
            b
        }
    } else {
        if a <= b {
            a
        } else {
            b
        }
    }
}

/// The minimax value of a position searched `depth` plies deep with the
/// evaluation weights `weights`: the evaluation itself at depth 0 or where
/// there is no step, else the best of the children's values for the side
/// to choose.
pub open spec fn minimax(weights: Seq<i64>, pos: Position, depth: nat, maximizing: bool) -> int
    decreases depth, search_moves(pos).len() + 1,
{
    if depth == 0 || search_moves(pos).len() == 0 {
        evaluate(weights, pos)
    } else {
        best_of(weights, pos, depth, maximizing, search_moves(pos).len())
    }
}

/// The best minimax value among the first `n` children that the search
/// visits.
pub open spec fn best_of(
    weights: Seq<i64>,
    pos: Position,
    depth: nat,
    maximizing: bool,
    n: nat,
) -> int
    decreases depth, n,
{
    if depth == 0 || n == 0 {
        worst(maximizing)
    } else {
        better(
            maximizing,
            best_of(weights, pos, depth, maximizing, (n - 1) as nat),
            minimax(weights, visit_child(pos, n - 1), (depth - 1) as nat, !maximizing),
        )
    }
}

/// What a value function returns: a score, and the line of steps that the
/// tree caches below the node.
pub struct Outcome {
    pub score: int,
    pub line: Seq<Move>,
}

/// The window in which child `k` of a node is searched, given the node's
/// window as it stands. It is the node's window, opened by one on the side
/// of the player who chooses for every child but the first: a child whose
/// score comes back equal to the best so far has then been searched inside
/// its window, and the score is its value, not a bound. At [`LOSS`] and
/// [`WIN`] there is nothing to open.
pub open spec fn child_window(maximizing: bool, alpha: int, beta: int, k: nat) -> (int, int) {
    if k == 0 {
        (alpha, beta)
    } else if maximizing {
        (
            if alpha > LOSS {
                alpha - 1
            } else {
                alpha
            },
            beta,
        )
    } else {
        (
            alpha,
            if beta < WIN {
                beta + 1
            } else {
                beta
            },
        )
    }
}

/// The alpha-beta search of a position, `depth` plies deep, inside the
/// window from `alpha` to `beta`. A node without children is evaluated.
/// Otherwise the children are searched in turn by the other side's value
/// function, each in its [`child_window`]; a child that is at least as
/// good as the best so far replaces it, so that among equals the one
/// tried last stays; the window narrows to the best score, and the rest
/// are skipped once it is empty.
pub open spec fn alpha_beta(
    weights: Seq<i64>,
    pos: Position,
    depth: nat,
    maximizing: bool,
    alpha: int,
    beta: int,
) -> Outcome
    decreases depth, search_moves(pos).len() + 1, 0int,
{
    if depth == 0 || search_moves(pos).len() == 0 {
        Outcome { score: evaluate(weights, pos), line: Seq::empty() }
    } else {
        scan(weights, pos, depth, maximizing, alpha, beta, 0, worst(maximizing), Seq::empty())
    }
}

/// The rest of a node's search from child `k` on, given the window, the
/// best score and the cached line as they stand.
pub open spec fn scan(
    weights: Seq<i64>,
    pos: Position,
    depth: nat,
    maximizing: bool,
    alpha: int,
    beta: int,
    k: nat,
    best: int,
    line: Seq<Move>,
) -> Outcome
    decreases depth, search_moves(pos).len() - k, 1int,
{
    if depth == 0 || k >= search_moves(pos).len() {
        Outcome { score: best, line }
    } else {
        let step = scan_step(weights, pos, depth, maximizing, alpha, beta, k, best, line);
        if step.alpha >= step.beta {
            Outcome { score: step.best, line: step.line }
        } else {
            scan(
                weights,
                pos,
                depth,
                maximizing,
                step.alpha,
                step.beta,
                k + 1,
                step.best,
                step.line,
            )
        }
    }
}

/// The window, best score and cached line during a node's search.
pub struct ScanState {
    pub alpha: int,
    pub beta: int,
    pub best: int,
    pub line: Seq<Move>,
}

/// The search of child `k` and what it does to the node's search.
pub open spec fn scan_step(
    weights: Seq<i64>,
    pos: Position,
    depth: nat,
    maximizing: bool,
    alpha: int,
    beta: int,
    k: nat,
    best: int,
    line: Seq<Move>,
) -> ScanState
    decreases depth, search_moves(pos).len() - k, 0int,
{
    if depth == 0 {
        ScanState { alpha, beta, best, line }
    } else {
        scan_step_with(
            pos,
            maximizing,
            alpha,
            beta,
            k,
            best,
            line,
            alpha_beta(
                weights,
                visit_child(pos, k as int),
                (depth - 1) as nat,
                !maximizing,
                child_window(maximizing, alpha, beta, k).0,
                child_window(maximizing, alpha, beta, k).1,
            ),
        )
    }
}

/// What the outcome `sub` of child `k` does to a node's search.
pub open spec fn scan_step_with(
    pos: Position,
    maximizing: bool,
    alpha: int,
    beta: int,
    k: nat,
    best: int,
    line: Seq<Move>,
    sub: Outcome,
) -> ScanState {
    let improved = if maximizing {
        sub.score >= best
    } else {
        sub.score <= best
    };
    let best2 = if improved {
        sub.score
    } else {
        best
    };
    ScanState {
        alpha: if maximizing && best2 > alpha {
            best2
        } else {
            alpha
        },
        beta: if !maximizing && best2 < beta {
            best2
        } else {
            beta
        },
        best: best2,
        line: if improved {
            seq![visit_move(pos, k as int)] + sub.line
        } else {
            line
        },
    }
}

/// The first step of a line, if it has one.
pub open spec fn first_step(line: Seq<Move>) -> Option<Move> {
    if line.len() > 0 {
        Some(line[0])
    } else {
        None
    }
}

/// The step that plain minimax keeps among the first `n` children that
/// the search visits: the step to the best child, and among equals the one
/// tried last.
pub open spec fn minimax_choice(
    weights: Seq<i64>,
    pos: Position,
    depth: nat,
    maximizing: bool,
    n: nat,
) -> Option<Move>
    decreases n,
{
    if depth == 0 || n == 0 {
        None
    } else {
        let before = best_of(weights, pos, depth, maximizing, (n - 1) as nat);
        let v = minimax(weights, visit_child(pos, n - 1), (depth - 1) as nat, !maximizing);
        let improved = if maximizing {
            v >= before
        } else {
            v <= before
        };
        if improved {
            Some(visit_move(pos, n - 1))
        } else {
            minimax_choice(weights, pos, depth, maximizing, (n - 1) as nat)
        }
    }
}

/// The step that plain minimax suggests in a position.
pub open spec fn minimax_step(weights: Seq<i64>, pos: Position, depth: nat, maximizing: bool) -> Option<
    Move,
> {
    minimax_choice(weights, pos, depth, maximizing, search_moves(pos).len())
}

/// The number of nodes that the alpha-beta search of a fresh node adds to
/// the tree: the children of every node it expands.
pub open spec fn tree_growth(
    weights: Seq<i64>,
    pos: Position,
    depth: nat,
    maximizing: bool,
    alpha: int,
    beta: int,
) -> nat
    decreases depth, search_moves(pos).len() + 1, 0int,
{
    if depth == 0 || search_moves(pos).len() == 0 {
        0
    } else {
        search_moves(pos).len() + scan_growth(
            weights,
            pos,
            depth,
            maximizing,
            alpha,
            beta,
            0,
            worst(maximizing),
        )
    }
}

/// The number of nodes that the rest of a node's search adds below its
/// children, from child `k` on.
pub open spec fn scan_growth(
    weights: Seq<i64>,
    pos: Position,
    depth: nat,
    maximizing: bool,
    alpha: int,
    beta: int,
    k: nat,
    best: int,
) -> nat
    decreases depth, search_moves(pos).len() - k, 1int,
{
    if depth == 0 || k >= search_moves(pos).len() {
        0
    } else {
        let below = tree_growth(
            weights,
            visit_child(pos, k as int),
            (depth - 1) as nat,
            !maximizing,
            child_window(maximizing, alpha, beta, k).0,
            child_window(maximizing, alpha, beta, k).1,
        );
        let step = scan_step(weights, pos, depth, maximizing, alpha, beta, k, best, Seq::empty());
        if step.alpha >= step.beta {
            below
        } else {
            below + scan_growth(
                weights,
                pos,
                depth,
                maximizing,
                step.alpha,
                step.beta,
                k + 1,
                step.best,
            )
        }
    }
}

/// The line that a search of the whole window caches at the root: the
/// principal variation.
pub open spec fn principal_line(weights: Seq<i64>, pos: Position, depth: nat, player: u8) -> Seq<
    Move,
> {
    alpha_beta(weights, pos, depth, player == 0, LOSS as int, WIN as int).line
}


/// What an alpha-beta score says of the minimax value `v`, given the
/// window: a score at or below `alpha` is an upper bound of `v`, a score at
/// or above `beta` a lower bound, and a score inside the window is `v`.
pub open spec fn bounds_value(r: int, v: int, alpha: int, beta: int) -> bool {
    &&& r <= alpha ==> v <= r
    &&& r >= beta ==> v >= r
    &&& alpha < r < beta ==> v == r
}

/// What holds between the children searched so far and the best score, as
/// long as the node's search goes on: the best score bounds the best
/// minimax value of those children from the far side of the window, or
/// equals it once it has entered the window.
pub open spec fn scan_invariant(
    weights: Seq<i64>,
    pos: Position,
    depth: nat,
    maximizing: bool,
    alpha0: int,
    beta0: int,
    alpha: int,
    beta: int,
    k: nat,
    best: int,
) -> bool {
    let seen = best_of(weights, pos, depth, maximizing, k);
    if maximizing {
        &&& beta == beta0
        &&& alpha == better(true, alpha0, best)
        &&& best < beta0
        &&& best <= alpha0 ==> seen <= best
        &&& best > alpha0 ==> seen == best
    } else {
        &&& alpha == alpha0
        &&& beta == better(false, beta0, best)
        &&& best > alpha0
        &&& best >= beta0 ==> seen >= best
        &&& best < beta0 ==> seen == best
    }
}

/// Alpha-beta against minimax, inside a window: with `alpha < beta`, the
/// score of the alpha-beta search bounds the minimax value as
/// [`bounds_value`] says.
pub proof fn lemma_alpha_beta_bounds(
    weights: Seq<i64>,
    pos: Position,
    depth: nat,
    maximizing: bool,
    alpha: int,
    beta: int,
)
    requires
        LOSS <= alpha < beta <= WIN,
    ensures
        bounds_value(
            alpha_beta(weights, pos, depth, maximizing, alpha, beta).score,
            minimax(weights, pos, depth, maximizing),
            alpha,
            beta,
        ),
    decreases depth, search_moves(pos).len() + 1, 0int,
{
    if depth == 0 || search_moves(pos).len() == 0 {
    } else {
        lemma_scan_bounds(
            weights,
            pos,
            depth,
            maximizing,
            alpha,
            beta,
            alpha,
            beta,
            0,
            worst(maximizing),
            Seq::empty(),
        );
    }
}

/// The same for the rest of a node's search, from child `k` on.
pub proof fn lemma_scan_bounds(
    weights: Seq<i64>,
    pos: Position,
    depth: nat,
    maximizing: bool,
    alpha0: int,
    beta0: int,
    alpha: int,
    beta: int,
    k: nat,
    best: int,
    line: Seq<Move>,
)
    requires
        depth > 0,
        k <= search_moves(pos).len(),
        LOSS <= alpha0 < beta0 <= WIN,
        scan_invariant(weights, pos, depth, maximizing, alpha0, beta0, alpha, beta, k, best),
    ensures
        bounds_value(
            scan(weights, pos, depth, maximizing, alpha, beta, k, best, line).score,
            best_of(weights, pos, depth, maximizing, search_moves(pos).len()),
            alpha0,
            beta0,
        ),
    decreases depth, search_moves(pos).len() - k, 1int,
{
    let n = search_moves(pos).len();
    if k >= n {
    } else {
        let child = visit_child(pos, k as int);
        let (low, high) = child_window(maximizing, alpha, beta, k);
        let sub = alpha_beta(weights, child, (depth - 1) as nat, !maximizing, low, high);
        let v = minimax(weights, child, (depth - 1) as nat, !maximizing);
        assert(low < high);
        lemma_alpha_beta_bounds(weights, child, (depth - 1) as nat, !maximizing, low, high);
        let step = scan_step(weights, pos, depth, maximizing, alpha, beta, k, best, line);
        let seen = best_of(weights, pos, depth, maximizing, k);
        let seen2 = best_of(weights, pos, depth, maximizing, k + 1);
        assert(seen2 == better(maximizing, seen, v));
        if step.alpha >= step.beta {
            lemma_best_of_grows(weights, pos, depth, maximizing, k + 1, n);
        } else {
            assert(scan_invariant(
                weights,
                pos,
                depth,
                maximizing,
                alpha0,
                beta0,
                step.alpha,
                step.beta,
                k + 1,
                step.best,
            ));
            lemma_scan_bounds(
                weights,
                pos,
                depth,
                maximizing,
                alpha0,
                beta0,
                step.alpha,
                step.beta,
                k + 1,
                step.best,
                step.line,
            );
        }
    }
}

/// The best of more children is no worse for the side that chooses.
pub proof fn lemma_best_of_grows(
    weights: Seq<i64>,
    pos: Position,
    depth: nat,
    maximizing: bool,
    k: nat,
    n: nat,
)
    requires
        depth > 0,
        k <= n,
    ensures
        maximizing ==> best_of(weights, pos, depth, maximizing, k) <= best_of(
            weights,
            pos,
            depth,
            maximizing,
            n,
        ),
        !maximizing ==> best_of(weights, pos, depth, maximizing, k) >= best_of(
            weights,
            pos,
            depth,
            maximizing,
            n,
        ),
    decreases n - k,
{
    if k < n {
        lemma_best_of_grows(weights, pos, depth, maximizing, k, (n - 1) as nat);
    }
}


/// The positions that the search reaches from a well-formed position are
/// well formed.
pub proof fn lemma_visit_child_wf(pos: Position, k: int)
    requires
        pos.wf(),
        0 <= k < search_moves(pos).len(),
    ensures
        visit_child(pos, k).wf(),
        visit_move(pos, k).origin() < 37,
        pos.move_result(visit_move(pos, k).origin(), visit_move(pos, k).dest(), true) is Ok,
{
    let i = search_moves(pos).len() - 1 - k;
    crate::game::gamestate::lemma_possible_moves_playable(pos, i);
    crate::game::gamestate::lemma_play_wf(
        pos,
        visit_move(pos, k).origin(),
        visit_move(pos, k).dest(),
    );
}

/// A minimax value is a score.
pub proof fn lemma_minimax_range(weights: Seq<i64>, pos: Position, depth: nat, maximizing: bool)
    requires
        pos.wf(),
        weights.len() == 19,
    ensures
        LOSS <= minimax(weights, pos, depth, maximizing) <= WIN,
    decreases depth, search_moves(pos).len() + 1,
{
    if depth == 0 || search_moves(pos).len() == 0 {
        lemma_evaluate_range(weights, pos);
    } else {
        lemma_best_of_range(weights, pos, depth, maximizing, search_moves(pos).len());
    }
}

/// The best value among a node's first children is a score.
pub proof fn lemma_best_of_range(
    weights: Seq<i64>,
    pos: Position,
    depth: nat,
    maximizing: bool,
    n: nat,
)
    requires
        pos.wf(),
        weights.len() == 19,
        n <= search_moves(pos).len(),
    ensures
        LOSS <= best_of(weights, pos, depth, maximizing, n) <= WIN,
    decreases depth, n,
{
    if depth == 0 || n == 0 {
    } else {
        lemma_best_of_range(weights, pos, depth, maximizing, (n - 1) as nat);
        lemma_visit_child_wf(pos, n - 1);
        lemma_minimax_range(weights, visit_child(pos, n - 1), (depth - 1) as nat, !maximizing);
    }
}

/// Alpha-beta and minimax agree. Searched with the whole window, from
/// [`LOSS`] to [`WIN`], a position gets the same score from the alpha-beta
/// search as from plain minimax, for every depth and every weights.
pub proof fn lemma_alpha_beta_is_minimax(
    weights: Seq<i64>,
    pos: Position,
    depth: nat,
    maximizing: bool,
)
    requires
        pos.wf(),
        weights.len() == 19,
    ensures
        alpha_beta(weights, pos, depth, maximizing, LOSS as int, WIN as int).score == minimax(
            weights,
            pos,
            depth,
            maximizing,
        ),
{
    lemma_alpha_beta_bounds(weights, pos, depth, maximizing, LOSS as int, WIN as int);
    lemma_minimax_range(weights, pos, depth, maximizing);
}

/// A decided game stays decided one ply deeper: where the minimax value at
/// some depth is [`WIN`] or [`LOSS`], it is the same at the next depth.
pub proof fn lemma_decided_persists(weights: Seq<i64>, pos: Position, depth: nat, maximizing: bool)
    requires
        pos.wf(),
        weights.len() == 19,
        minimax(weights, pos, depth, maximizing) == WIN || minimax(weights, pos, depth, maximizing)
            == LOSS,
    ensures
        minimax(weights, pos, depth + 1, maximizing) == minimax(weights, pos, depth, maximizing),
    decreases depth, search_moves(pos).len() + 1,
{
    if depth == 0 || search_moves(pos).len() == 0 {
        lemma_evaluate_range(weights, pos);
    } else {
        lemma_best_of_decided(weights, pos, depth, maximizing, search_moves(pos).len());
    }
}

/// The same for the best value among a node's first children.
pub proof fn lemma_best_of_decided(
    weights: Seq<i64>,
    pos: Position,
    depth: nat,
    maximizing: bool,
    n: nat,
)
    requires
        pos.wf(),
        weights.len() == 19,
        depth > 0,
        n <= search_moves(pos).len(),
        best_of(weights, pos, depth, maximizing, n) == WIN || best_of(
            weights,
            pos,
            depth,
            maximizing,
            n,
        ) == LOSS,
    ensures
        best_of(weights, pos, depth + 1, maximizing, n) == best_of(
            weights,
            pos,
            depth,
            maximizing,
            n,
        ),
    decreases depth, n,
{
    if n > 0 {
        let child = visit_child(pos, n - 1);
        lemma_visit_child_wf(pos, n - 1);
        let before = best_of(weights, pos, depth, maximizing, (n - 1) as nat);
        let v = minimax(weights, child, (depth - 1) as nat, !maximizing);
        lemma_best_of_range(weights, pos, depth, maximizing, (n - 1) as nat);
        lemma_minimax_range(weights, child, (depth - 1) as nat, !maximizing);
        lemma_best_of_range(weights, pos, depth + 1, maximizing, (n - 1) as nat);
        lemma_minimax_range(weights, child, depth, !maximizing);
        if v == WIN || v == LOSS {
            lemma_decided_persists(weights, child, (depth - 1) as nat, !maximizing);
        }
        if before == WIN || before == LOSS {
            lemma_best_of_decided(weights, pos, depth, maximizing, (n - 1) as nat);
        }
    }
}

/// A win once found is found at every greater depth: where the minimax
/// value at `depth` is [`WIN`] or [`LOSS`], it is the same at `deeper`.
pub proof fn lemma_decided_at_depth_stays(
    weights: Seq<i64>,
    pos: Position,
    depth: nat,
    deeper: nat,
    maximizing: bool,
)
    requires
        pos.wf(),
        weights.len() == 19,
        depth <= deeper,
        minimax(weights, pos, depth, maximizing) == WIN || minimax(weights, pos, depth, maximizing)
            == LOSS,
    ensures
        minimax(weights, pos, deeper, maximizing) == minimax(weights, pos, depth, maximizing),
    decreases deeper - depth,
{
    if depth < deeper {
        lemma_decided_at_depth_stays(weights, pos, depth, (deeper - 1) as nat, maximizing);
        lemma_decided_persists(weights, pos, (deeper - 1) as nat, maximizing);
    }
}


/// An alpha-beta score is a score, and the search caches a line wherever
/// it has a child to search.
pub proof fn lemma_alpha_beta_range(
    weights: Seq<i64>,
    pos: Position,
    depth: nat,
    maximizing: bool,
    alpha: int,
    beta: int,
)
    requires
        pos.wf(),
        weights.len() == 19,
    ensures
        LOSS <= alpha_beta(weights, pos, depth, maximizing, alpha, beta).score <= WIN,
        alpha_beta(weights, pos, depth, maximizing, alpha, beta).line.len() > 0 <==> depth > 0
            && search_moves(pos).len() > 0,
    decreases depth, search_moves(pos).len() + 1, 0int,
{
    if depth == 0 || search_moves(pos).len() == 0 {
        lemma_evaluate_range(weights, pos);
    } else {
        lemma_scan_range(
            weights,
            pos,
            depth,
            maximizing,
            alpha,
            beta,
            0,
            worst(maximizing),
            Seq::empty(),
        );
    }
}

/// The same for the rest of a node's search, from child `k` on.
pub proof fn lemma_scan_range(
    weights: Seq<i64>,
    pos: Position,
    depth: nat,
    maximizing: bool,
    alpha: int,
    beta: int,
    k: nat,
    best: int,
    line: Seq<Move>,
)
    requires
        pos.wf(),
        weights.len() == 19,
        depth > 0,
        k <= search_moves(pos).len(),
        LOSS <= best <= WIN,
        k == 0 ==> best == worst(maximizing),
        k > 0 ==> line.len() > 0,
    ensures
        LOSS <= scan(weights, pos, depth, maximizing, alpha, beta, k, best, line).score <= WIN,
        k < search_moves(pos).len() || k > 0 ==> scan(
            weights,
            pos,
            depth,
            maximizing,
            alpha,
            beta,
            k,
            best,
            line,
        ).line.len() > 0,
    decreases depth, search_moves(pos).len() - k, 1int,
{
    if k < search_moves(pos).len() {
        lemma_visit_child_wf(pos, k as int);
        lemma_alpha_beta_range(
            weights,
            visit_child(pos, k as int),
            (depth - 1) as nat,
            !maximizing,
            child_window(maximizing, alpha, beta, k).0,
            child_window(maximizing, alpha, beta, k).1,
        );
        let step = scan_step(weights, pos, depth, maximizing, alpha, beta, k, best, line);
        if step.alpha >= step.beta {
        } else {
            lemma_scan_range(
                weights,
                pos,
                depth,
                maximizing,
                step.alpha,
                step.beta,
                k + 1,
                step.best,
                step.line,
            );
        }
    }
}

/// The position at the end of a line.
pub open spec fn line_end(pos: Position, line: Seq<Move>) -> Position {
    play_line(pos, line, line.len() as int)
}

/// A line with one step in front leads where the rest leads from the
/// position after that step.
pub proof fn lemma_play_line_prepend(pos: Position, m: Move, rest: Seq<Move>, n: int)
    requires
        0 <= n <= rest.len(),
    ensures
        play_line(pos, seq![m] + rest, n + 1) == play_line(
            pos.play(m.origin(), m.dest()),
            rest,
            n,
        ),
    decreases n,
{
    let line = seq![m] + rest;
    if n == 0 {
        assert(line[0] == m);
        assert(play_line(pos, line, 0) == pos);
        assert(play_line(pos, line, 1) == play_line(pos, line, 0).play(
            line[0].origin(),
            line[0].dest(),
        ));
    } else {
        lemma_play_line_prepend(pos, m, rest, n - 1);
        assert(line[n] == rest[n - 1]);
    }
}

/// The score of a search is the evaluation of the position that its
/// cached line ends in.
pub proof fn lemma_score_is_line_end(
    weights: Seq<i64>,
    pos: Position,
    depth: nat,
    maximizing: bool,
    alpha: int,
    beta: int,
)
    requires
        pos.wf(),
        weights.len() == 19,
    ensures
        alpha_beta(weights, pos, depth, maximizing, alpha, beta).score == evaluate(
            weights,
            line_end(pos, alpha_beta(weights, pos, depth, maximizing, alpha, beta).line),
        ),
        line_end(pos, alpha_beta(weights, pos, depth, maximizing, alpha, beta).line).wf(),
    decreases depth, search_moves(pos).len() + 1, 0int,
{
    if depth == 0 || search_moves(pos).len() == 0 {
        assert(play_line(pos, Seq::<Move>::empty(), 0) == pos);
    } else {
        lemma_scan_line_end(
            weights,
            pos,
            depth,
            maximizing,
            alpha,
            beta,
            0,
            worst(maximizing),
            Seq::empty(),
        );
    }
}

/// The same for the rest of a node's search, from child `k` on.
pub proof fn lemma_scan_line_end(
    weights: Seq<i64>,
    pos: Position,
    depth: nat,
    maximizing: bool,
    alpha: int,
    beta: int,
    k: nat,
    best: int,
    line: Seq<Move>,
)
    requires
        pos.wf(),
        weights.len() == 19,
        depth > 0,
        search_moves(pos).len() > 0,
        k <= search_moves(pos).len(),
        k == 0 ==> best == worst(maximizing),
        k > 0 ==> best == evaluate(weights, line_end(pos, line)) && line_end(pos, line).wf(),
    ensures
        scan(weights, pos, depth, maximizing, alpha, beta, k, best, line).score == evaluate(
            weights,
            line_end(pos, scan(weights, pos, depth, maximizing, alpha, beta, k, best, line).line),
        ),
        line_end(pos, scan(weights, pos, depth, maximizing, alpha, beta, k, best, line).line).wf(),
    decreases depth, search_moves(pos).len() - k, 1int,
{
    if k < search_moves(pos).len() {
        let child = visit_child(pos, k as int);
        lemma_visit_child_wf(pos, k as int);
        let (low, high) = child_window(maximizing, alpha, beta, k);
        lemma_score_is_line_end(weights, child, (depth - 1) as nat, !maximizing, low, high);
        lemma_alpha_beta_range(weights, child, (depth - 1) as nat, !maximizing, low, high);
        let sub = alpha_beta(weights, child, (depth - 1) as nat, !maximizing, low, high);
        lemma_play_line_prepend(pos, visit_move(pos, k as int), sub.line, sub.line.len() as int);
        let step = scan_step(weights, pos, depth, maximizing, alpha, beta, k, best, line);
        assert(step.best == evaluate(weights, line_end(pos, step.line)));
        assert(line_end(pos, step.line).wf());
        if step.alpha >= step.beta {
        } else {
            lemma_scan_line_end(
                weights,
                pos,
                depth,
                maximizing,
                step.alpha,
                step.beta,
                k + 1,
                step.best,
                step.line,
            );
        }
    }
}

/// A win once found stays found. Where the minimax value of a position at
/// `depth` plies is [`WIN`] or [`LOSS`], the search of the whole window at
/// every greater depth has that score, and its line ends in a position
/// in which the game is over and won by that player.
pub proof fn lemma_found_win_stays_found(
    weights: Seq<i64>,
    pos: Position,
    depth: nat,
    deeper: nat,
    player: u8,
)
    requires
        pos.wf(),
        weights.len() == 19,
        depth <= deeper,
        minimax(weights, pos, depth, player == 0) == WIN || minimax(
            weights,
            pos,
            depth,
            player == 0,
        ) == LOSS,
    ensures
        alpha_beta(weights, pos, deeper, player == 0, LOSS as int, WIN as int).score == minimax(
            weights,
            pos,
            depth,
            player == 0,
        ),
        !line_end(pos, principal_line(weights, pos, deeper, player)).active,
        line_end(pos, principal_line(weights, pos, deeper, player)).winner == Some(
            if minimax(weights, pos, depth, player == 0) == WIN {
                0u8
            } else {
                1u8
            },
        ),
{
    lemma_decided_at_depth_stays(weights, pos, depth, deeper, player == 0);
    lemma_alpha_beta_is_minimax(weights, pos, deeper, player == 0);
    lemma_score_is_line_end(weights, pos, deeper, player == 0, LOSS as int, WIN as int);
    let line = principal_line(weights, pos, deeper, player);
    lemma_evaluate_range(weights, line_end(pos, line));
}

/// The principal variation is a line of steps that may be played from the
/// position, and it has a first step wherever the depth is positive and a
/// step is open.
pub proof fn lemma_principal_line_starts(weights: Seq<i64>, pos: Position, depth: nat, player: u8)
    requires
        pos.wf(),
        weights.len() == 19,
    ensures
        principal_line(weights, pos, depth, player).len() > 0 <==> depth > 0 && search_moves(
            pos,
        ).len() > 0,
{
    lemma_alpha_beta_range(weights, pos, depth, player == 0, LOSS as int, WIN as int);
}


/// The number of children that the search of the whole window tries at a
/// node, from child `k` on: all of them, or those up to and with the first
/// whose value is the best there is for the player who chooses, where the
/// search stops.
pub open spec fn children_tried(
    weights: Seq<i64>,
    pos: Position,
    depth: nat,
    maximizing: bool,
    k: nat,
) -> nat
    decreases search_moves(pos).len() - k,
{
    if depth == 0 || k >= search_moves(pos).len() {
        search_moves(pos).len()
    } else if minimax(weights, visit_child(pos, k as int), (depth - 1) as nat, !maximizing)
        == worst(!maximizing) {
        k + 1
    } else {
        children_tried(weights, pos, depth, maximizing, k + 1)
    }
}

/// The step that the search suggests in a position: the step that plain
/// minimax keeps among the children tried. That is the step of plain
/// minimax itself, but where a step wins for the player who chooses: there
/// it is the first such step tried.
pub open spec fn search_step(weights: Seq<i64>, pos: Position, depth: nat, maximizing: bool) -> Option<
    Move,
> {
    minimax_choice(weights, pos, depth, maximizing, children_tried(weights, pos, depth, maximizing, 0))
}

/// Alpha-beta suggests the step of plain minimax. Searched with the whole
/// window, a position gets from the alpha-beta search the step that plain
/// minimax keeps among the children tried, for every depth and every
/// weights.
pub proof fn lemma_step_is_search_step(
    weights: Seq<i64>,
    pos: Position,
    depth: nat,
    maximizing: bool,
)
    requires
        pos.wf(),
        weights.len() == 19,
    ensures
        first_step(alpha_beta(weights, pos, depth, maximizing, LOSS as int, WIN as int).line)
            == search_step(weights, pos, depth, maximizing),
{
    if depth > 0 && search_moves(pos).len() > 0 {
        lemma_root_scan(weights, pos, depth, maximizing, 0, worst(maximizing), Seq::empty());
    }
}

/// Where no step wins for the player who chooses, every child is tried,
/// and the step of the search is the step of plain minimax.
pub proof fn lemma_search_step_is_minimax_step(
    weights: Seq<i64>,
    pos: Position,
    depth: nat,
    maximizing: bool,
)
    requires
        pos.wf(),
        weights.len() == 19,
        minimax(weights, pos, depth, maximizing) != worst(!maximizing),
    ensures
        search_step(weights, pos, depth, maximizing) == minimax_step(
            weights,
            pos,
            depth,
            maximizing,
        ),
        first_step(alpha_beta(weights, pos, depth, maximizing, LOSS as int, WIN as int).line)
            == minimax_step(weights, pos, depth, maximizing),
{
    lemma_step_is_search_step(weights, pos, depth, maximizing);
    if depth > 0 && search_moves(pos).len() > 0 {
        lemma_all_tried(weights, pos, depth, maximizing, 0);
    }
}

/// Where no child has the best value there is for the player who
/// chooses, every child is tried.
proof fn lemma_all_tried(weights: Seq<i64>, pos: Position, depth: nat, maximizing: bool, k: nat)
    requires
        pos.wf(),
        weights.len() == 19,
        depth > 0,
        k <= search_moves(pos).len(),
        best_of(weights, pos, depth, maximizing, search_moves(pos).len()) != worst(!maximizing),
    ensures
        children_tried(weights, pos, depth, maximizing, k) == search_moves(pos).len(),
    decreases search_moves(pos).len() - k,
{
    let n = search_moves(pos).len();
    if k < n {
        lemma_visit_child_wf(pos, k as int);
        lemma_minimax_range(weights, visit_child(pos, k as int), (depth - 1) as nat, !maximizing);
        lemma_best_of_range(weights, pos, depth, maximizing, k);
        lemma_best_of_range(weights, pos, depth, maximizing, n);
        lemma_best_of_grows(weights, pos, depth, maximizing, k + 1, n);
        lemma_all_tried(weights, pos, depth, maximizing, k + 1);
    }
}

/// The search of the whole window from child `k` on, where the best score
/// so far is the best value of the children before `k`, the line begins
/// with the step that plain minimax keeps among them, and none of them
/// has stopped the search.
proof fn lemma_root_scan(
    weights: Seq<i64>,
    pos: Position,
    depth: nat,
    maximizing: bool,
    k: nat,
    best: int,
    line: Seq<Move>,
)
    requires
        pos.wf(),
        weights.len() == 19,
        depth > 0,
        search_moves(pos).len() > 0,
        k <= search_moves(pos).len(),
        best == best_of(weights, pos, depth, maximizing, k),
        best != worst(!maximizing),
        first_step(line) == minimax_choice(weights, pos, depth, maximizing, k),
        children_tried(weights, pos, depth, maximizing, 0) == children_tried(
            weights,
            pos,
            depth,
            maximizing,
            k,
        ),
    ensures
        first_step(
            scan(
                weights,
                pos,
                depth,
                maximizing,
                if maximizing {
                    best
                } else {
                    LOSS as int
                },
                if maximizing {
                    WIN as int
                } else {
                    best
                },
                k,
                best,
                line,
            ).line,
        ) == search_step(weights, pos, depth, maximizing),
    decreases search_moves(pos).len() - k,
{
    let n = search_moves(pos).len();
    let alpha = if maximizing {
        best
    } else {
        LOSS as int
    };
    let beta = if maximizing {
        WIN as int
    } else {
        best
    };
    lemma_best_of_range(weights, pos, depth, maximizing, k);
    if k < n {
        let child = visit_child(pos, k as int);
        let (low, high) = child_window(maximizing, alpha, beta, k);
        lemma_visit_child_wf(pos, k as int);
        lemma_minimax_range(weights, child, (depth - 1) as nat, !maximizing);
        lemma_alpha_beta_range(weights, child, (depth - 1) as nat, !maximizing, low, high);
        lemma_alpha_beta_bounds(weights, child, (depth - 1) as nat, !maximizing, low, high);
        lemma_best_of_range(weights, pos, depth, maximizing, k + 1);
        let sub = alpha_beta(weights, child, (depth - 1) as nat, !maximizing, low, high);
        let v = minimax(weights, child, (depth - 1) as nat, !maximizing);
        let step = scan_step(weights, pos, depth, maximizing, alpha, beta, k, best, line);
        if maximizing {
            assert(sub.score >= best <==> v >= best);
            assert(sub.score >= best ==> sub.score == v);
        } else {
            assert(sub.score <= best <==> v <= best);
            assert(sub.score <= best ==> sub.score == v);
        }
        assert(step.best == best_of(weights, pos, depth, maximizing, k + 1));
        assert(first_step(step.line) == minimax_choice(weights, pos, depth, maximizing, k + 1));
        if step.alpha >= step.beta {
            assert(v == worst(!maximizing));
        } else {
            assert(v != worst(!maximizing));
            lemma_root_scan(weights, pos, depth, maximizing, k + 1, step.best, step.line);
        }
    }
}

} // verus!
