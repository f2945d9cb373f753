use chess_engine::board_repr::piece::Piece;
use chess_engine::board_repr::square::Square;
use chess_engine::move_generation::move_list::MoveList;
use chess_engine::move_generation::moves::Move;

fn quiet(source: Square, target: Square) -> Move {
    Move::encode_move(
        source,
        target,
        Piece::WhiteKnight,
        Piece::Empty,
        Piece::Empty,
        false,
        false,
        false,
    )
}

#[test]
fn a_new_list_is_empty() {
    let list = MoveList::new();
    assert_eq!(list.count(), 0);
    assert_eq!(MoveList::default().count(), 0);
}

#[test]
fn moves_come_back_in_the_order_they_went_in() {
    let mut list = MoveList::new();
    let a = quiet(Square::B1, Square::C3);
    let b = quiet(Square::G1, Square::F3);
    list.add_move(a);
    list.add_move(b);
    assert_eq!(list.count(), 2);
    assert_eq!(list.get(0), a);
    assert_eq!(list.get(1), b);
}

#[test]
fn a_list_holds_more_than_255_moves() {
    let mut list = MoveList::new();
    for _ in 0..300 {
        list.add_move(quiet(Square::B1, Square::C3));
    }
    assert_eq!(list.count(), 300);
}

#[test]
fn the_cursor_hands_out_the_moves_and_then_nothing() {
    let mut list = MoveList::new();
    let a = quiet(Square::B1, Square::C3);
    let b = quiet(Square::G1, Square::F3);
    list.add_move(a);
    list.add_move(b);
    let mut cursor = list.into_iter();
    assert_eq!(cursor.next(), Some(a));
    assert_eq!(cursor.next(), Some(b));
    assert_eq!(cursor.next(), None);
    assert_eq!(cursor.next(), None);
    assert_eq!(cursor.index, 2);
}

#[test]
fn the_cursor_hands_out_nothing_for_a_move_without_a_piece() {
    let mut list = MoveList::new();
    let a = quiet(Square::B1, Square::C3);
    list.add_move(Move::default());
    list.add_move(a);
    let mut cursor = list.into_iter();
    assert_eq!(cursor.next(), None);
    assert_eq!(cursor.index, 1);
    assert_eq!(cursor.next(), Some(a));
}
