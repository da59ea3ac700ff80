use milestone::ai::heuristics::{HeuristicWeights, LOSS, WEIGHT_ONE, WIN};
use milestone::ai::tree::{
    deepen, get_best_move, iterative_deepening, Budget, GameTree, SearchError, SearchLimit,
};
use milestone::game::board::{Board, Hole, Move};
use milestone::game::gamestate::State;
use milestone::game::pieces::Piece;
use std::time::Duration;

fn state_with(black: &[usize], white: &[usize], turn: u8) -> State {
    let mut board = Board { board: [Hole(None); 37] };
    for &b in black {
        board.board[b] = Hole(Some(Piece::Black));
    }
    for &w in white {
        board.board[w] = Hole(Some(Piece::White));
    }
    State { active: true, winner: None, current_turn: turn, board }
}

fn ends(m: Move) -> (usize, usize) {
    match m {
        Move::Straight(o, d) => (o, d),
        Move::Diagonal(o, d) => (o, d),
    }
}

fn replay(state: State, line: &[Move]) -> State {
    let mut s = state;
    for m in line {
        let (o, d) = ends(*m);
        assert_eq!(s.move_piece(o, d, true), Ok(()));
    }
    s
}

/// Plain minimax without pruning, written from the rules alone.
fn plain_minimax(state: &State, depth: u8, hw: &HeuristicWeights, maximizing: bool) -> i128 {
    let moves = state.current_possible_moves(state.current_turn);
    if depth == 0 || moves.is_empty() {
        return hw.score(state);
    }
    let mut best = if maximizing { i128::MIN } else { i128::MAX };
    for m in moves {
        let (o, d) = ends(m);
        let mut next = *state;
        next.move_piece(o, d, true).unwrap();
        let v = plain_minimax(&next, depth - 1, hw, !maximizing);
        if maximizing {
            if v > best {
                best = v;
            }
        } else if v < best {
            best = v;
        }
    }
    best
}

fn mixed_weights() -> [i64; 19] {
    let mut w = [0i64; 19];
    for (i, slot) in w.iter_mut().enumerate() {
        *slot = ((i as i64 * 37 + 11) % 23) * 50_000;
    }
    w
}

#[test]
fn rollback_depth_two_gives_a_line_of_two_legal_steps() {
    let state = State::new();
    let weights = [WEIGHT_ONE; 19];
    let mut tree = GameTree::new(state, 2, &weights);
    tree.build_eval_tree();
    let line = tree.rollback(0);
    assert_eq!(line.len(), 2);
    replay(state, &line);
    assert!(tree.total_subnodes() >= 12);
}

#[test]
fn rollback_without_building_first_gives_the_same_line() {
    let state = State::new();
    let weights = mixed_weights();
    let mut built = GameTree::new(state, 2, &weights);
    built.build_eval_tree();
    built.build_eval_tree();
    let mut bare = GameTree::new(state, 2, &weights);
    assert_eq!(built.rollback(0), bare.rollback(0));
    assert_eq!(built.total_subnodes(), bare.total_subnodes());
}

#[test]
fn a_new_tree_has_no_nodes_below_the_root() {
    let tree = GameTree::new(State::new(), 3, &[WEIGHT_ONE; 19]);
    assert_eq!(tree.total_subnodes(), 0);
}

#[test]
fn build_eval_tree_gives_the_root_a_child_for_every_open_step() {
    let mut tree = GameTree::new(State::new(), 3, &[WEIGHT_ONE; 19]);
    tree.build_eval_tree();
    assert_eq!(tree.total_subnodes(), 12);
    let mut flat = GameTree::new(State::new(), 0, &[WEIGHT_ONE; 19]);
    flat.build_eval_tree();
    assert_eq!(flat.total_subnodes(), 0);
}

#[test]
fn rollback_to_depth_zero_gives_no_step() {
    let mut tree = GameTree::new(State::new(), 0, &[WEIGHT_ONE; 19]);
    assert_eq!(tree.rollback(0), Vec::<Move>::new());
}

#[test]
fn rollback_of_a_finished_game_gives_no_step() {
    let mut s = State::new();
    s.active = false;
    s.winner = Some(1);
    let mut tree = GameTree::new(s, 3, &[WEIGHT_ONE; 19]);
    assert_eq!(tree.rollback(0), Vec::<Move>::new());
    assert_eq!(tree.total_subnodes(), 0);
}

#[test]
fn alpha_beta_scores_as_plain_minimax_does() {
    let positions = [
        State::new(),
        state_with(&[11, 18, 3], &[25, 30, 22], 0),
        state_with(&[11, 18, 3], &[25, 30, 22], 1),
        state_with(&[4, 7, 8, 14], &[28, 21, 26], 0),
        state_with(&[20, 24], &[10, 12, 13], 1),
    ];
    for weights in [[WEIGHT_ONE; 19], mixed_weights()] {
        let hw = HeuristicWeights::new(weights);
        for state in positions.iter() {
            for depth in 1..=3u8 {
                let mut tree = GameTree::new(*state, depth, &weights);
                let line = tree.rollback(state.current_turn as usize);
                let end = replay(*state, &line);
                let expected = plain_minimax(state, depth, &hw, state.current_turn == 0);
                assert_eq!(hw.score(&end), expected);
            }
        }
    }
}

#[test]
fn among_equal_steps_the_search_keeps_the_one_tried_last() {
    // With every weight at 0 all leaves score 0, nothing is pruned at the
    // root, and the step tried last is the first that is listed.
    let state = State::new();
    let weights = [0i64; 19];
    let mut tree = GameTree::new(state, 1, &weights);
    let line = tree.rollback(0);
    assert_eq!(line, vec![Move::Straight(3, 10)]);
    let mut white = state;
    white.current_turn = 1;
    let mut tree = GameTree::new(white, 1, &weights);
    let first_listed = white.current_possible_moves(1)[0];
    assert_eq!(tree.rollback(1), vec![first_listed]);
}

#[test]
fn a_win_in_one_is_found_at_every_depth() {
    let state = state_with(&[32, 3], &[20, 30], 0);
    let hw = HeuristicWeights::new(mixed_weights());
    for depth in 1..=4u8 {
        let mut tree = GameTree::new(state, depth, &mixed_weights());
        let line = tree.rollback(0);
        let end = replay(state, &line);
        assert_eq!(hw.score(&end), WIN);
        assert_eq!(end.winner, Some(0));
        assert!(!end.active);
    }
}

#[test]
fn get_best_move_to_a_depth_reports_the_search() {
    let state = State::new();
    let weights = mixed_weights();
    let found = get_best_move(&state, &SearchLimit::Depth(2), &weights).unwrap();
    let mut tree = GameTree::new(state, 2, &weights);
    let line = tree.rollback(0);
    assert_eq!(found.expected_line(), &line);
    assert_eq!(found.suggestion, line[0]);
    assert_eq!(found.suggestion(), line[0]);
    assert_eq!(found.max_depth_considered(), 2);
    assert_eq!(found.total_nodes_considered(), tree.total_subnodes());
    let report = found.heuristical_reasoning();
    let end = replay(state, &line);
    assert_eq!(report.new_state.board.current_players_pieces(0), end.board.current_players_pieces(0));
    assert_eq!(report.new_state.board.current_players_pieces(1), end.board.current_players_pieces(1));
    assert_eq!(report.old_state.board.current_players_pieces(0), state.board.current_players_pieces(0));
    assert!(found.time_building_trees() <= Duration::from_secs(20));
    assert!(found.time_evaluating_trees() <= Duration::from_secs(20));
}

#[test]
fn get_best_move_to_depth_zero_finds_no_step() {
    let found = get_best_move(&State::new(), &SearchLimit::Depth(0), &[WEIGHT_ONE; 19]);
    assert_eq!(found.err(), Some(SearchError::NoLegalMove));
}

#[test]
fn get_best_move_without_an_open_step_finds_no_step() {
    let stuck = state_with(&[36], &[20], 0);
    let found = get_best_move(&stuck, &SearchLimit::Depth(3), &[WEIGHT_ONE; 19]);
    assert_eq!(found.err(), Some(SearchError::NoLegalMove));
    let timed = get_best_move(
        &stuck,
        &SearchLimit::Time(Duration::from_millis(50)),
        &[WEIGHT_ONE; 19],
    );
    assert_eq!(timed.err(), Some(SearchError::NoLegalMove));
}

#[test]
fn a_budget_of_no_time_is_used_up_before_any_search() {
    let found = iterative_deepening(&State::new(), &Duration::ZERO, &[WEIGHT_ONE; 19]);
    assert_eq!(found.err(), Some(SearchError::BudgetExhausted));
    let limited = get_best_move(
        &State::new(),
        &SearchLimit::Time(Duration::ZERO),
        &[WEIGHT_ONE; 19],
    );
    assert_eq!(limited.err(), Some(SearchError::BudgetExhausted));
}

#[test]
fn a_budget_of_some_time_completes_at_least_one_depth() {
    let found =
        iterative_deepening(&State::new(), &Duration::from_millis(30), &[WEIGHT_ONE; 19]).unwrap();
    assert!(found.max_depth_considered() >= 1);
    assert_eq!(found.expected_line().len(), found.max_depth_considered() as usize);
    assert_eq!(found.suggestion, found.expected_line()[0]);
}

#[test]
fn deepening_for_a_number_of_rounds_is_the_search_to_that_depth() {
    let state = state_with(&[11, 18, 3], &[25, 30, 22], 1);
    let weights = mixed_weights();
    for rounds in 1..=3u8 {
        let deepened = deepen(&state, &Budget::Rounds(rounds), &weights).unwrap();
        let direct = get_best_move(&state, &SearchLimit::Depth(rounds), &weights).unwrap();
        assert_eq!(deepened.max_depth_considered(), rounds);
        assert_eq!(deepened.expected_line(), direct.expected_line());
        assert_eq!(deepened.suggestion, direct.suggestion);
    }
    let none = deepen(&state, &Budget::Rounds(0), &weights);
    assert_eq!(none.err(), Some(SearchError::BudgetExhausted));
}

#[test]
fn the_default_limit_is_seven_hundred_milliseconds() {
    assert_eq!(SearchLimit::default(), SearchLimit::Time(Duration::from_millis(700)));
}

#[test]
fn search_errors_say_what_went_wrong() {
    assert_eq!(
        SearchError::NoLegalMove.message(),
        "Rollback did not return a potential move"
    );
    assert_eq!(
        SearchError::BudgetExhausted.message(),
        "could not find a best move in time"
    );
}

/// The step of plain minimax, with the tie-break of the search: among
/// equals the step tried last, and the steps tried from the last listed
/// to the first.
fn plain_step(state: &State, depth: u8, hw: &HeuristicWeights) -> Option<Move> {
    let maximizing = state.current_turn == 0;
    let mut best = if maximizing { i128::MIN } else { i128::MAX };
    let mut best_move = None;
    for m in state.current_possible_moves(state.current_turn).iter().rev() {
        let (o, d) = ends(*m);
        let mut next = *state;
        next.move_piece(o, d, true).unwrap();
        let v = plain_minimax(&next, depth - 1, hw, !maximizing);
        let improved = if maximizing { v >= best } else { v <= best };
        if improved {
            best = v;
            best_move = Some(*m);
        }
    }
    best_move
}

/// The step that plain minimax keeps among the steps tried up to and with
/// the first that wins for the player to move.
fn plain_step_until_a_win(state: &State, depth: u8, hw: &HeuristicWeights) -> Option<Move> {
    let maximizing = state.current_turn == 0;
    let win = if maximizing { i128::MAX } else { i128::MIN };
    let mut best = if maximizing { i128::MIN } else { i128::MAX };
    let mut best_move = None;
    for m in state.current_possible_moves(state.current_turn).iter().rev() {
        let (o, d) = ends(*m);
        let mut next = *state;
        next.move_piece(o, d, true).unwrap();
        let v = plain_minimax(&next, depth - 1, hw, !maximizing);
        let improved = if maximizing { v >= best } else { v <= best };
        if improved {
            best = v;
            best_move = Some(*m);
        }
        if v == win {
            break;
        }
    }
    best_move
}

#[test]
fn the_search_suggests_the_step_of_plain_minimax() {
    let positions = [
        State::new(),
        state_with(&[11, 18, 3], &[25, 30, 22], 0),
        state_with(&[11, 18, 3], &[25, 30, 22], 1),
        state_with(&[4, 7, 8, 14], &[28, 21, 26], 0),
        state_with(&[20, 24], &[10, 12, 13], 1),
        state_with(&[9, 15, 16, 23], &[12, 19, 27, 31], 0),
        state_with(&[9, 15, 16, 23], &[12, 19, 27, 31], 1),
    ];
    let mut compared = 0;
    for weights in [[WEIGHT_ONE; 19], mixed_weights(), [0i64; 19]] {
        let hw = HeuristicWeights::new(weights);
        for state in positions.iter() {
            for depth in 1..=3u8 {
                let maximizing = state.current_turn == 0;
                let value = plain_minimax(state, depth, &hw, maximizing);
                let win = if maximizing { i128::MAX } else { i128::MIN };
                let mut tree = GameTree::new(*state, depth, &weights);
                let line = tree.rollback(state.current_turn as usize);
                assert_eq!(Some(line[0]), plain_step_until_a_win(state, depth, &hw));
                if value != win {
                    assert_eq!(Some(line[0]), plain_step(state, depth, &hw));
                    compared += 1;
                }
                let found = get_best_move(state, &SearchLimit::Depth(depth), &weights).unwrap();
                assert_eq!(found.suggestion(), line[0]);
            }
        }
    }
    assert!(compared >= 30);
}

#[test]
fn a_score_equal_to_the_best_does_not_take_the_place_of_the_best_step() {
    let state = State::new();
    let weights = [WEIGHT_ONE; 19];
    let hw = HeuristicWeights::new(weights);
    let mut tree = GameTree::new(state, 2, &weights);
    let line = tree.rollback(0);
    assert_eq!(plain_step(&state, 2, &hw), Some(Move::Diagonal(8, 11)));
    assert_eq!(line[0], Move::Diagonal(8, 11));
    assert_eq!(hw.score(&replay(state, &line)), plain_minimax(&state, 2, &hw, true));
}

#[test]
fn where_a_step_wins_the_search_stops_at_the_first_it_tries() {
    let state = state_with(&[32, 3], &[20, 30], 0);
    let weights = mixed_weights();
    let hw = HeuristicWeights::new(weights);
    for depth in 1..=3u8 {
        assert_eq!(plain_minimax(&state, depth, &hw, true), WIN);
        let mut tree = GameTree::new(state, depth, &weights);
        let line = tree.rollback(0);
        assert_eq!(Some(line[0]), plain_step_until_a_win(&state, depth, &hw));
    }
}

#[test]
fn a_search_one_ply_deep_adds_a_node_for_every_open_step() {
    let found = get_best_move(&State::new(), &SearchLimit::Depth(1), &[WEIGHT_ONE; 19]).unwrap();
    assert_eq!(found.total_nodes_considered(), 12);
    let small = state_with(&[11], &[14, 18], 0);
    let found = get_best_move(&small, &SearchLimit::Depth(1), &[WEIGHT_ONE; 19]).unwrap();
    assert_eq!(found.total_nodes_considered(), 2);
}

#[test]
fn a_search_counts_the_children_of_every_node_it_expands() {
    // The root gets a child for every step of black, and every child one
    // for every reply of white; the replies are leaves.
    let small = state_with(&[3], &[33], 0);
    let steps = small.current_possible_moves(0).len();
    let found = get_best_move(&small, &SearchLimit::Depth(2), &[0i64; 19]).unwrap();
    let mut expected = steps;
    for m in small.current_possible_moves(0) {
        let (o, d) = ends(m);
        let mut next = small;
        next.move_piece(o, d, true).unwrap();
        expected += next.current_possible_moves(1).len();
    }
    assert_eq!(found.total_nodes_considered(), expected);
}

#[test]
fn a_tree_as_text_lists_its_nodes_and_steps() {
    let small = state_with(&[3], &[33], 0);
    let mut tree = GameTree::new(small, 1, &[WEIGHT_ONE; 19]);
    let bare = tree.dot_text();
    assert!(bare.starts_with("digraph {"));
    assert!(bare.contains("    0 [ label = "));
    assert!(!bare.contains("->"));
    tree.rollback(0);
    let searched = tree.dot_text();
    assert!(searched.contains("    0 -> 1 [ label = "));
    assert!(searched.contains("    0 -> 3 [ label = "));
    assert!(searched.contains("Straight(3, 10)"));
    assert!(searched.trim_end().ends_with('}'));
}

#[test]
fn the_value_functions_give_the_minimax_value_on_the_whole_window() {
    let positions = [
        State::new(),
        state_with(&[11, 18, 3], &[25, 30, 22], 0),
        state_with(&[4, 7, 8, 14], &[28, 21, 26], 1),
    ];
    let weights = mixed_weights();
    let hw = HeuristicWeights::new(weights);
    for state in positions.iter() {
        for depth in 0..=3u8 {
            let mut high = GameTree::new(*state, depth, &weights);
            let root = high.root_index();
            let (score, step) = high.max_value(root, LOSS, WIN);
            assert_eq!(score, plain_minimax(state, depth, &hw, true));
            assert_eq!(step.is_some(), depth > 0);
            let mut low = GameTree::new(*state, depth, &weights);
            let root = low.root_index();
            let (score, _) = low.min_value(root, LOSS, WIN);
            assert_eq!(score, plain_minimax(state, depth, &hw, false));
        }
    }
}

#[test]
fn a_win_in_one_ends_the_expected_line_at_every_depth() {
    let state = state_with(&[32, 3], &[20, 30], 0);
    let weights = mixed_weights();
    for depth in 1..=4u8 {
        let found = get_best_move(&state, &SearchLimit::Depth(depth), &weights).unwrap();
        let end = replay(state, found.expected_line());
        assert!(!end.active);
        assert_eq!(end.winner, Some(0));
    }
}
