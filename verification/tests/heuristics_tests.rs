use milestone::ai::heuristics::{
    normalize_weights, unsigned100_normalize, upperbound_middle_proximity, AggressivePieces,
    AggressivePieces_AntiCentrality, AggressivePieces_MiddleProximity, AttackTiming, Heuristic,
    HeuristicWeights, LimitOppoMoves, PieceDifferential, Term, total_of, peak_of, furthest_of,
    LOSS, NUM_HEURISTICS, WEIGHT_ONE, WIN,
};
use milestone::ai::location_maps::{
    anti_centrality, black_proximity, black_proximity_row, centrality, location_agnostic,
    middle_proximity, white_proximity, white_proximity_row,
};
use milestone::game::board::{Board, Hole, Move};
use milestone::game::gamestate::State;
use milestone::game::pieces::Piece;

fn state_with(black: &[usize], white: &[usize], turn: u8) -> State {
    let mut board = Board { board: [Hole(None); 37] };
    for &b in black {
        board.board[b] = Hole(Some(Piece::Black));
    }
    for &w in white {
        board.board[w] = Hole(Some(Piece::White));
    }
    State { active: true, winner: None, current_turn: turn, board }
}

#[test]
fn unsigned100_normalize_maps_the_bounds_onto_a_thousand() {
    assert_eq!(unsigned100_normalize(-10, 10, 0), 0);
    assert_eq!(unsigned100_normalize(-10, 10, 10), 1000);
    assert_eq!(unsigned100_normalize(-10, 10, -10), -1000);
    assert_eq!(unsigned100_normalize(0, 4, 1), -500);
}

#[test]
fn unsigned100_normalize_rounds_towards_zero() {
    assert_eq!(unsigned100_normalize(-7, 7, 1), 142);
    assert_eq!(unsigned100_normalize(-7, 7, -8), -1142);
    assert_eq!(unsigned100_normalize(-30, 30, -1), -34);
}

#[test]
fn unsigned100_normalize_goes_beyond_a_thousand_outside_the_bounds() {
    assert_eq!(unsigned100_normalize(-10, 10, 20), 2000);
    assert_eq!(unsigned100_normalize(-10, 10, -20), -2000);
}

#[test]
fn unsigned100_normalize_takes_bounds_the_other_way_round() {
    assert_eq!(unsigned100_normalize(10, -10, 10), -1000);
    assert_eq!(unsigned100_normalize(10, -10, 0), 0);
    assert_eq!(unsigned100_normalize(7, -7, 6), -858);
}

#[test]
fn upperbound_middle_proximity_weighs_seven_and_three() {
    assert_eq!(upperbound_middle_proximity(6, 3), 51);
    assert_eq!(upperbound_middle_proximity(1, 0), 7);
    assert_eq!(upperbound_middle_proximity(0, 1), 3);
}

#[test]
fn location_maps_give_the_table_values() {
    assert_eq!(location_agnostic(&5), 5);
    assert_eq!(centrality(&18), 3);
    assert_eq!(centrality(&11), 2);
    assert_eq!(centrality(&4), 1);
    assert_eq!(centrality(&0), 0);
    assert_eq!(anti_centrality(&18), 0);
    assert_eq!(anti_centrality(&0), 3);
    assert_eq!(middle_proximity(&0), 6);
    assert_eq!(middle_proximity(&1), 3);
    assert_eq!(middle_proximity(&3), 1);
    assert_eq!(middle_proximity(&6), 0);
    assert_eq!(black_proximity(&0), 5);
    assert_eq!(black_proximity(&25), 1);
    assert_eq!(black_proximity(&36), 0);
    assert_eq!(white_proximity(&36), 5);
    assert_eq!(white_proximity(&11), 1);
    assert_eq!(white_proximity(&0), 0);
}

#[test]
fn proximity_rows_count_from_either_home() {
    assert_eq!(black_proximity_row(0), 0);
    assert_eq!(black_proximity_row(18), 6);
    assert_eq!(black_proximity_row(36), 12);
    assert_eq!(white_proximity_row(0), 12);
    assert_eq!(white_proximity_row(18), 6);
    assert_eq!(white_proximity_row(36), 0);
    for i in 0..37 {
        assert_eq!(black_proximity_row(i) + white_proximity_row(i), 12);
    }
}

#[test]
fn the_opening_is_even_but_for_the_open_steps() {
    let hw = HeuristicWeights::new([WEIGHT_ONE; 19]);
    let scores = hw.breakdown(&State::new());
    let mut expected = vec![0i64; 19];
    expected[13] = -34;
    assert_eq!(scores, expected);
    assert_eq!(hw.score(&State::new()), -34_000_000);
}

#[test]
fn breakdown_of_a_small_position() {
    let s = state_with(&[11, 18], &[25], 0);
    let hw = HeuristicWeights::new([WEIGHT_ONE; 19]);
    assert_eq!(
        hw.breakdown(&s),
        vec![100, 142, 0, 117, 58, 58, 166, 0, 0, 0, 0, 0, -100, 66, 125, 142, 0, 0, 0]
    );
    assert_eq!(hw.score(&s), 874_000_000);
}

#[test]
fn score_weighs_every_heuristic_by_its_weight() {
    let s = state_with(&[11, 18], &[25], 0);
    let mut weights = [0i64; 19];
    weights[0] = 2 * WEIGHT_ONE;
    weights[12] = WEIGHT_ONE / 2;
    weights[13] = -WEIGHT_ONE;
    let hw = HeuristicWeights::new(weights);
    assert_eq!(hw.score(&s), 200_000_000 - 50_000_000 - 66_000_000);
    assert_eq!(hw.weights(), weights);
}

#[test]
fn score_of_a_won_game_is_win_or_loss() {
    let hw = HeuristicWeights::new([WEIGHT_ONE; 19]);
    let mut s = state_with(&[11, 18], &[25], 0);
    s.active = false;
    s.winner = Some(0);
    assert_eq!(hw.score(&s), WIN);
    assert_eq!(hw.score(&s), i128::MAX);
    s.winner = Some(1);
    assert_eq!(hw.score(&s), LOSS);
    assert_eq!(hw.score(&s), i128::MIN);
}

#[test]
fn score_of_a_game_that_ended_without_a_winner_is_the_weighted_sum() {
    let hw = HeuristicWeights::new([WEIGHT_ONE; 19]);
    let mut s = state_with(&[11, 18], &[25], 0);
    s.active = false;
    s.winner = None;
    // No step is open once the game is over, so the open steps count 0.
    assert_eq!(hw.score(&s), 874_000_000 - 66_000_000);
}

#[test]
fn single_heuristics_score_the_small_position() {
    let s = state_with(&[11, 18], &[25], 0);
    assert_eq!(PieceDifferential.score(&s), 100);
    assert_eq!(AttackTiming.score(&s), -100);
    assert_eq!(LimitOppoMoves.score(&s), 66);
    assert_eq!(PieceDifferential.name(), "Piece Diff");
    assert_eq!(LimitOppoMoves.name(), "Limit Oppo Moves");
}

#[test]
fn aggressive_pieces_count_who_has_passed_the_other() {
    let s = state_with(&[30], &[3, 5], 0);
    assert_eq!(AggressivePieces.score(&s), 111);
    assert_eq!(AggressivePieces_MiddleProximity.score(&s), 166);
    assert_eq!(AggressivePieces_AntiCentrality.score(&s), 500);
}

#[test]
fn aggressive_pieces_are_decisive_at_two() {
    let s = state_with(&[30], &[3, 5, 6], 0);
    assert_eq!(AggressivePieces.score(&s), 1000);
    assert_eq!(AggressivePieces_MiddleProximity.score(&s), 1000);
    assert_eq!(AggressivePieces_AntiCentrality.score(&s), 1000);
    let t = state_with(&[30, 31, 33], &[3], 0);
    assert_eq!(AggressivePieces.score(&t), -1000);
    assert_eq!(AggressivePieces_MiddleProximity.score(&t), -1000);
    assert_eq!(AggressivePieces_AntiCentrality.score(&t), -1000);
}

#[test]
fn totals_and_peaks_over_the_pieces() {
    let b = Board::new();
    assert_eq!(total_of(&b, 0, Term::Unit), 10);
    assert_eq!(total_of(&b, 0, Term::MiddleProximity), 26);
    assert_eq!(total_of(&b, 1, Term::MiddleProximity), 26);
    assert_eq!(total_of(&b, 0, Term::TowardsHome), 33);
    assert_eq!(total_of(&b, 1, Term::TowardsHome), 33);
    assert_eq!(total_of(&b, 0, Term::TowardsOpponent), 0);
    assert_eq!(total_of(&b, 0, Term::FreeAhead), 7);
    assert_eq!(total_of(&b, 0, Term::FreeAheadMiddle), 14);
    assert_eq!(total_of(&b, 0, Term::Exposed), 3);
    assert_eq!(total_of(&b, 0, Term::OwnAhead), 3);
    assert_eq!(total_of(&b, 0, Term::OwnAheadMiddle), 12);
    assert_eq!(total_of(&b, 0, Term::UnbackedMiddle), 0);
    assert_eq!(total_of(&b, 0, Term::Important), 7);
    assert_eq!(total_of(&b, 1, Term::Important), 7);
    assert_eq!(total_of(&b, 0, Term::Advanced(3)), 4);
    assert_eq!(peak_of(&b, 0, Term::TimingMiddle), 0);
    let s = state_with(&[11, 18, 19], &[25], 0);
    assert_eq!(peak_of(&s.board, 0, Term::TimingMiddle), 2);
    assert_eq!(peak_of(&s.board, 0, Term::TimingSide), 1);
    assert_eq!(peak_of(&s.board, 1, Term::TimingSide), 0);
    assert_eq!(furthest_of(&s.board, 0), 6);
    assert_eq!(furthest_of(&s.board, 1), 4);
    let empty = state_with(&[], &[], 0);
    assert_eq!(furthest_of(&empty.board, 0), 0);
    assert_eq!(furthest_of(&empty.board, 1), 0);
}

#[test]
fn normalize_weights_divides_by_the_sum() {
    let mut w = [WEIGHT_ONE; 19];
    normalize_weights(&mut w);
    assert_eq!(w, [52_631i64; 19]);
    let mut v = [0i64; 19];
    v[0] = 3 * WEIGHT_ONE;
    v[1] = WEIGHT_ONE;
    normalize_weights(&mut v);
    assert_eq!(v[0], 750_000);
    assert_eq!(v[1], 250_000);
    assert_eq!(v[2], 0);
}

#[test]
fn normalize_weights_leaves_weights_that_sum_to_zero() {
    let mut w = [0i64; 19];
    normalize_weights(&mut w);
    assert_eq!(w, [0i64; 19]);
    let mut v = [0i64; 19];
    v[0] = 5;
    v[1] = -5;
    normalize_weights(&mut v);
    assert_eq!(v[0], 5);
    assert_eq!(v[1], -5);
}

#[test]
fn normalize_weights_leaves_weights_whose_quotient_does_not_fit() {
    let mut v = [0i64; 19];
    v[0] = i64::MAX;
    v[1] = -i64::MAX + 1;
    normalize_weights(&mut v);
    assert_eq!(v[0], i64::MAX);
    assert_eq!(v[1], -i64::MAX + 1);
}

#[test]
fn report_of_a_line_holds_the_states_before_and_after() {
    let hw = HeuristicWeights::new([WEIGHT_ONE; NUM_HEURISTICS]);
    let s = State::new();
    let report = hw.new_with_state_and_moves(s, &vec![Move::Straight(4, 11), Move::Straight(32, 25)]);
    assert_eq!(report.old_state.board.board[4].0, Some(Piece::Black));
    assert_eq!(report.new_state.board.board[4].0, None);
    assert_eq!(report.new_state.board.board[11].0, Some(Piece::Black));
    assert_eq!(report.new_state.board.board[25].0, Some(Piece::White));
    assert_eq!(report.new_state.current_turn, 0);
    let (before, after) = report.totals();
    assert_eq!(before, -34_000_000);
    assert_eq!(after, hw.score(&report.new_state));
    let one = hw.new_with_state_and_move(s, Move::Straight(4, 11));
    assert_eq!(one.new_state.board.board[11].0, Some(Piece::Black));
    assert_eq!(one.new_state.current_turn, 1);
    let with_state = hw.new_with_state(&s);
    assert_eq!(with_state.total(), -34_000_000);
    assert_eq!(hw.names().len(), 19);
    assert_eq!(hw.names()[0], "Piece Diff");
    assert_eq!(hw.names()[18], "Aggr Pieces Anti Centrality");
}

#[test]
fn the_middle_proximity_bound_is_taken_of_any_weights_that_fit() {
    assert_eq!(upperbound_middle_proximity(6, 3), 51);
    assert_eq!(upperbound_middle_proximity(-6, 3), -33);
    assert_eq!(upperbound_middle_proximity(0, 0), 0);
    assert_eq!(
        upperbound_middle_proximity(1_000_000_000_000_000_000, 700_000_000_000_000_000),
        9_100_000_000_000_000_000
    );
    assert_eq!(upperbound_middle_proximity(i64::MAX / 7, -1), i64::MAX / 7 * 7 - 3);
}
