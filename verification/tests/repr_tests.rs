use milestone::game::board::{Board, Hole};
use milestone::game::gamestate::State;
use milestone::game::pieces::Piece;

#[test]
fn the_opening_as_text() {
    let s = State::new();
    assert_eq!(s.to_repr_string(), "b:bbbbbbbbbb.................wwwwwwwwww");
    assert_eq!(
        s.board.to_repr_string(),
        "bbbbbbbbbb.................wwwwwwwwww"
    );
    let mut white = s;
    white.current_turn = 1;
    assert_eq!(
        white.to_repr_string(),
        "w:bbbbbbbbbb.................wwwwwwwwww"
    );
}

#[test]
fn a_game_that_is_over_has_no_text() {
    let mut s = State::new();
    s.active = false;
    s.winner = Some(0);
    assert_eq!(s.to_repr_string(), "");
}

#[test]
fn text_and_back_gives_the_state() {
    let mut s = State::new();
    s.move_piece(4, 11, true).unwrap();
    s.move_piece(32, 25, true).unwrap();
    s.move_piece(11, 18, true).unwrap();
    let text = s.to_repr_string();
    let back = State::from_repr_string(&text).unwrap();
    assert!(back.active);
    assert_eq!(back.winner, None);
    assert_eq!(back.current_turn, s.current_turn);
    for i in 0..37 {
        assert_eq!(back.board.board[i].0, s.board.board[i].0);
    }
    assert_eq!(back.to_repr_string(), text);
}

#[test]
fn a_board_is_read_from_its_text() {
    let b = Board::from_repr_string("b...................................w").unwrap();
    assert_eq!(b.board[0].0, Some(Piece::Black));
    assert_eq!(b.board[36].0, Some(Piece::White));
    assert_eq!(b.board[18].0, None);
    assert_eq!(b.current_players_pieces(0), vec![0]);
    let mut expected = Board { board: [Hole(None); 37] };
    expected.board[0] = Hole(Some(Piece::Black));
    expected.board[36] = Hole(Some(Piece::White));
    assert_eq!(b.to_repr_string(), expected.to_repr_string());
}

#[test]
fn text_that_does_not_stand_for_a_state_is_refused() {
    assert!(State::from_repr_string("").is_err());
    assert!(State::from_repr_string("b").is_err());
    assert!(State::from_repr_string("b:").is_err());
    assert!(State::from_repr_string("x:bbbbbbbbbb.................wwwwwwwwww").is_err());
    assert!(State::from_repr_string("b;bbbbbbbbbb.................wwwwwwwwww").is_err());
    assert!(State::from_repr_string("b:bbbbbbbbbb.................wwwwwwwww").is_err());
    assert!(State::from_repr_string("b:bbbbbbbbbb.................wwwwwwwwwww").is_err());
    assert!(State::from_repr_string("b:bbbbbbbbbb........x........wwwwwwwwww").is_err());
    assert!(Board::from_repr_string("bbbbbbbbbb.................wwwwwwwwwW").is_err());
    assert!(Board::from_repr_string("").is_err());
}
