use milestone::game::board::{Board, Hole, Move};
use milestone::game::gamestate::State;
use milestone::game::new_game;
use milestone::game::pieces::Piece;

fn state_with(black: &[usize], white: &[usize], turn: u8) -> State {
    let mut board = Board { board: [Hole(None); 37] };
    for &b in black {
        board.board[b] = Hole(Some(Piece::Black));
    }
    for &w in white {
        board.board[w] = Hole(Some(Piece::White));
    }
    State { active: true, winner: None, current_turn: turn, board }
}

#[test]
fn new_state_is_the_opening_with_black_to_move() {
    let s = State::new();
    assert!(s.active);
    assert_eq!(s.winner, None);
    assert_eq!(s.current_turn, 0);
    assert_eq!(s.board.current_players_pieces(0).len(), 10);
    assert_eq!(s.board.current_players_pieces(1).len(), 10);
}

#[test]
fn get_pieces_type_from_idx_gives_the_colour() {
    let s = State::new();
    assert_eq!(s.get_pieces_type_from_idx(0), Piece::Black);
    assert_eq!(s.get_pieces_type_from_idx(1), Piece::White);
}

#[test]
fn can_move_into_an_empty_hole_does_not_capture() {
    let s = State::new();
    assert_eq!(s.can_move(&4, &11, 0), Ok(false));
    assert_eq!(s.can_move(&6, &10, 0), Ok(false));
    assert_eq!(s.can_move(&32, &25, 1), Ok(false));
}

#[test]
fn can_move_straight_onto_an_opponent_captures() {
    let s = state_with(&[11], &[18], 0);
    assert_eq!(s.can_move(&11, &18, 0), Ok(true));
    assert_eq!(s.can_move(&18, &11, 1), Ok(true));
}

#[test]
fn can_move_diagonally_onto_an_opponent_is_refused() {
    let s = state_with(&[11], &[14], 0);
    assert_eq!(s.can_move(&11, &14, 0), Err("must capture head-on"));
}

#[test]
fn can_move_onto_an_own_piece_is_refused() {
    let s = State::new();
    assert_eq!(
        s.can_move(&0, &4, 0),
        Err("can't occupy the same space as another one of your pieces")
    );
}

#[test]
fn can_move_to_a_hole_that_is_not_listed_is_refused() {
    let s = State::new();
    assert_eq!(
        s.can_move(&4, &18, 0),
        Err("not a legal move for this piece or it's not your turn")
    );
}

#[test]
fn can_move_from_a_hole_without_an_own_piece_is_refused() {
    let s = State::new();
    assert_eq!(
        s.can_move(&20, &24, 0),
        Err("Not a legal move. No pieces at the starting space specified")
    );
    assert_eq!(
        s.can_move(&4, &11, 1),
        Err("Not a legal move. No pieces at the starting space specified")
    );
}

#[test]
fn move_piece_moves_and_passes_the_turn() {
    let mut s = State::new();
    assert_eq!(s.move_piece(4, 11, true), Ok(()));
    assert_eq!(s.board.board[4].0, None);
    assert_eq!(s.board.board[11].0, Some(Piece::Black));
    assert_eq!(s.current_turn, 1);
    assert!(s.active);
    assert_eq!(s.winner, None);
}

#[test]
fn move_piece_refuses_a_capture_that_is_not_allowed() {
    let mut s = state_with(&[11, 0], &[18, 36], 0);
    assert_eq!(
        s.move_piece(11, 18, false),
        Err("you don't have permission to capture this piece")
    );
    assert_eq!(s.board.board[11].0, Some(Piece::Black));
    assert_eq!(s.board.board[18].0, Some(Piece::White));
    assert_eq!(s.current_turn, 0);
}

#[test]
fn move_piece_captures_where_allowed() {
    let mut s = state_with(&[11, 0], &[18, 36], 0);
    assert_eq!(s.move_piece(11, 18, true), Ok(()));
    assert_eq!(s.board.board[11].0, None);
    assert_eq!(s.board.board[18].0, Some(Piece::Black));
    assert_eq!(s.board.current_players_pieces(1), vec![36]);
    assert_eq!(s.current_turn, 1);
    assert!(s.active);
}

#[test]
fn move_piece_passes_an_error_on_and_changes_nothing() {
    let mut s = State::new();
    assert_eq!(
        s.move_piece(0, 4, true),
        Err("can't occupy the same space as another one of your pieces")
    );
    assert_eq!(s.current_turn, 0);
    assert_eq!(s.board.board[0].0, Some(Piece::Black));
}

#[test]
fn reaching_the_home_hole_wins_and_keeps_the_turn() {
    let mut s = state_with(&[32], &[20], 0);
    assert_eq!(s.move_piece(32, 36, true), Ok(()));
    assert!(!s.active);
    assert_eq!(s.winner, Some(0));
    assert_eq!(s.current_turn, 0);

    let mut t = state_with(&[20], &[4], 1);
    assert_eq!(t.move_piece(4, 0, true), Ok(()));
    assert!(!t.active);
    assert_eq!(t.winner, Some(1));
    assert_eq!(t.current_turn, 1);
}

#[test]
fn capturing_the_last_piece_wins_and_passes_the_turn() {
    let mut s = state_with(&[11], &[18], 0);
    assert_eq!(s.move_piece(11, 18, true), Ok(()));
    assert!(!s.active);
    assert_eq!(s.winner, Some(0));
    assert_eq!(s.current_turn, 1);
}

#[test]
fn leaving_the_opponent_without_a_step_wins() {
    // White's only piece, on 1, can only step to 0, which black holds: once
    // black has moved, white is stuck.
    let mut s = state_with(&[0, 20], &[1], 0);
    assert_eq!(s.move_piece(20, 24, true), Ok(()));
    assert!(!s.active);
    assert_eq!(s.winner, Some(0));
}

#[test]
fn current_possible_moves_of_the_opening() {
    let s = State::new();
    let black = s.current_possible_moves(0);
    assert_eq!(
        black,
        vec![
            Move::Straight(3, 10),
            Move::Straight(4, 11),
            Move::Straight(5, 12),
            Move::Diagonal(6, 10),
            Move::Straight(6, 13),
            Move::Diagonal(7, 10),
            Move::Diagonal(8, 11),
            Move::Diagonal(8, 11),
            Move::Diagonal(8, 12),
            Move::Straight(8, 15),
            Move::Diagonal(9, 12),
            Move::Straight(9, 16),
        ]
    );
    assert_eq!(s.current_possible_moves(1).len(), 13);
}

#[test]
fn current_possible_moves_of_a_finished_game_is_empty() {
    let mut s = State::new();
    s.active = false;
    assert_eq!(s.current_possible_moves(0), Vec::<Move>::new());
    assert_eq!(s.current_possible_moves(1), Vec::<Move>::new());
}

#[test]
fn current_possible_moves_leaves_out_diagonal_captures() {
    let s = state_with(&[11], &[14, 18], 0);
    assert_eq!(
        s.current_possible_moves(0),
        vec![Move::Diagonal(11, 15), Move::Straight(11, 18)]
    );
}

#[test]
fn a_new_game_is_at_its_opening() {
    let s = new_game();
    assert!(s.active);
    assert_eq!(s.winner, None);
    assert_eq!(s.current_turn, 0);
    assert_eq!(s.to_repr_string(), State::new().to_repr_string());
}
