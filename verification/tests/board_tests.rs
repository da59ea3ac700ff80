use milestone::game::board::{Board, Hole, Move};
use milestone::game::pieces::Piece;

fn empty_board() -> Board {
    Board { board: [Hole(None); 37] }
}

#[test]
fn new_board_has_opening_position() {
    let b = Board::new();
    for i in 0..37 {
        let expected = if i < 10 {
            Some(Piece::Black)
        } else if i > 26 {
            Some(Piece::White)
        } else {
            None
        };
        assert_eq!(b.board[i].0, expected);
    }
}

#[test]
fn default_board_is_the_opening_board() {
    let b = Board::default();
    assert_eq!(b.board[0].0, Some(Piece::Black));
    assert_eq!(b.board[18].0, None);
    assert_eq!(b.board[36].0, Some(Piece::White));
}

#[test]
fn possible_move_finds_first_listed_step() {
    let b = Board::new();
    assert_eq!(b.possible_move(&0, &4, 0), Some(Move::Straight(0, 4)));
    assert_eq!(b.possible_move(&0, &1, 0), Some(Move::Diagonal(0, 1)));
    assert_eq!(b.possible_move(&0, &3, 0), None);
    assert_eq!(b.possible_move(&36, &32, 1), Some(Move::Straight(36, 32)));
    assert_eq!(b.possible_move(&36, &35, 1), Some(Move::Diagonal(36, 35)));
}

#[test]
fn possible_move_off_the_board_is_none() {
    let b = Board::new();
    assert_eq!(b.possible_move(&40, &32, 1), None);
    assert_eq!(b.possible_move(&36, &4, 0), None);
    assert_eq!(b.possible_move(&0, &4, 1), None);
}

#[test]
fn possible_move_from_hole_seven_returns_the_step_as_listed() {
    let b = Board::new();
    assert_eq!(b.possible_move(&7, &10, 0), Some(Move::Diagonal(7, 10)));
    assert_eq!(b.possible_move(&7, &11, 0), Some(Move::Diagonal(8, 11)));
    assert_eq!(b.possible_move(&7, &14, 0), Some(Move::Straight(9, 14)));
}

#[test]
fn current_players_pieces_of_the_opening() {
    let b = Board::new();
    assert_eq!(b.current_players_pieces(0), vec![0, 1, 2, 3, 4, 5, 6, 7, 8, 9]);
    assert_eq!(
        b.current_players_pieces(1),
        vec![27, 28, 29, 30, 31, 32, 33, 34, 35, 36]
    );
}

#[test]
fn current_players_pieces_of_an_empty_board() {
    let b = empty_board();
    assert_eq!(b.current_players_pieces(0), Vec::<usize>::new());
    assert_eq!(b.current_players_pieces(1), Vec::<usize>::new());
}

#[test]
fn all_valid_moves_lists_every_row_of_every_piece() {
    let mut b = empty_board();
    b.board[6] = Hole(Some(Piece::Black));
    b.board[35] = Hole(Some(Piece::Black));
    b.board[20] = Hole(Some(Piece::White));
    assert_eq!(
        b.all_valid_moves(0),
        vec![Move::Diagonal(6, 10), Move::Straight(6, 13), Move::Diagonal(35, 36)]
    );
    assert_eq!(
        b.all_valid_moves(1),
        vec![Move::Diagonal(20, 17), Move::Straight(20, 13)]
    );
}

#[test]
fn all_valid_moves_of_the_opening_counts_the_rows() {
    let b = Board::new();
    assert_eq!(b.all_valid_moves(0).len(), 28);
    assert_eq!(b.all_valid_moves(1).len(), 28);
}

#[test]
fn get_moves_of_piece_gives_the_whole_table() {
    let b = Board::new();
    let black = b.get_moves_of_piece(0);
    let white = b.get_moves_of_piece(1);
    assert_eq!(black.len(), 37);
    assert_eq!(white.len(), 37);
    assert_eq!(
        black[0],
        vec![Move::Diagonal(0, 1), Move::Diagonal(0, 2), Move::Straight(0, 4)]
    );
    assert_eq!(black[36], Vec::<Move>::new());
    assert_eq!(black[27], vec![Move::Diagonal(27, 31)]);
    assert_eq!(white[0], Vec::<Move>::new());
    assert_eq!(
        white[36],
        vec![Move::Diagonal(36, 35), Move::Diagonal(36, 34), Move::Straight(36, 32)]
    );
    assert_eq!(white[13], vec![Move::Diagonal(13, 10), Move::Straight(13, 6)]);
}

#[test]
fn get_straight_hex_is_the_destination_of_a_last_straight_step() {
    let b = Board::new();
    assert_eq!(b.get_straight_hex(0, 0), Some(4));
    assert_eq!(b.get_straight_hex(0, 6), Some(13));
    assert_eq!(b.get_straight_hex(0, 7), Some(14));
    assert_eq!(b.get_straight_hex(0, 32), Some(36));
    assert_eq!(b.get_straight_hex(1, 36), Some(32));
    assert_eq!(b.get_straight_hex(1, 4), Some(0));
}

#[test]
fn get_straight_hex_is_none_without_a_straight_step() {
    let b = Board::new();
    assert_eq!(b.get_straight_hex(0, 36), None);
    assert_eq!(b.get_straight_hex(0, 27), None);
    assert_eq!(b.get_straight_hex(1, 0), None);
    assert_eq!(b.get_straight_hex(1, 1), None);
}
