use chess_engine::board_repr::piece::{Color, Piece};

const ALL: [Piece; 13] = [
    Piece::WhitePawn,
    Piece::WhiteQueen,
    Piece::WhiteKing,
    Piece::WhiteBishop,
    Piece::WhiteKnight,
    Piece::WhiteRook,
    Piece::BlackPawn,
    Piece::BlackQueen,
    Piece::BlackKing,
    Piece::BlackBishop,
    Piece::BlackKnight,
    Piece::BlackRook,
    Piece::Empty,
];

#[test]
fn piece_numbers_run_from_zero_to_twelve() {
    for (n, piece) in ALL.iter().enumerate() {
        assert_eq!(piece.value() as usize, n);
        assert_eq!(Piece::get_by_index(n as u8), *piece);
    }
}

#[test]
fn colour_of_each_piece() {
    for piece in &ALL[0..6] {
        assert_eq!(piece.color(), Color::White);
    }
    for piece in &ALL[6..13] {
        assert_eq!(piece.color(), Color::Black);
    }
}

#[test]
fn opposite_colour_swaps_the_sides() {
    for n in 0..6usize {
        assert_eq!(ALL[n].opposite_color(), ALL[n + 6]);
        assert_eq!(ALL[n + 6].opposite_color(), ALL[n]);
    }
}

#[test]
fn to_color_keeps_the_kind() {
    for n in 0..6usize {
        assert_eq!(ALL[n].to_color(Color::Black), ALL[n + 6]);
        assert_eq!(ALL[n + 6].to_color(Color::White), ALL[n]);
        assert_eq!(ALL[n].to_color(Color::White), ALL[n]);
        assert_eq!(ALL[n + 6].to_color(Color::Black), ALL[n + 6]);
        assert_eq!(ALL[n].to_color(Color::Both), ALL[n]);
    }
    assert_eq!(Piece::Empty.to_color(Color::White), Piece::Empty);
    assert_eq!(Piece::Empty.to_color(Color::Black), Piece::Empty);
}

#[test]
fn kind_queries() {
    assert!(Piece::WhitePawn.is_pawn() && Piece::BlackPawn.is_pawn());
    assert!(Piece::WhiteKing.is_king() && Piece::BlackKing.is_king());
    assert!(Piece::WhiteBishop.is_bishop() && Piece::BlackBishop.is_bishop());
    assert!(Piece::WhiteRook.is_rook() && Piece::BlackRook.is_rook());
    assert!(Piece::WhiteKnight.is_knight() && Piece::BlackKnight.is_knight());
    assert!(Piece::WhiteQueen.is_queen() && Piece::BlackQueen.is_queen());
    assert!(Piece::Empty.is_none());
    assert!(!Piece::WhiteQueen.is_pawn());
    assert!(!Piece::Empty.is_king());
    assert!(!Piece::WhitePawn.is_none());
}

#[test]
fn weights() {
    assert_eq!(Piece::WhitePawn.eval_value(), 100);
    assert_eq!(Piece::WhiteKnight.eval_value(), 300);
    assert_eq!(Piece::WhiteBishop.eval_value(), 350);
    assert_eq!(Piece::WhiteRook.eval_value(), 500);
    assert_eq!(Piece::WhiteQueen.eval_value(), 1000);
    assert_eq!(Piece::WhiteKing.eval_value(), 10000);
    assert_eq!(Piece::BlackPawn.eval_value(), -100);
    assert_eq!(Piece::BlackKnight.eval_value(), -300);
    assert_eq!(Piece::BlackBishop.eval_value(), -350);
    assert_eq!(Piece::BlackRook.eval_value(), -500);
    assert_eq!(Piece::BlackQueen.eval_value(), -1000);
    assert_eq!(Piece::BlackKing.eval_value(), -10000);
    assert_eq!(Piece::Empty.eval_value(), 0);
}

#[test]
fn opposite_of_a_colour() {
    assert_eq!(Color::White.opposite(), Color::Black);
    assert_eq!(Color::Black.opposite(), Color::White);
    assert_eq!(Color::Both.opposite(), Color::White);
    assert_eq!(Color::default(), Color::White);
    assert_eq!(Color::White.index(), 0);
    assert_eq!(Color::Black.index(), 1);
    assert_eq!(Color::Both.index(), 2);
}
