use chess_engine::board_repr::piece::Piece;
use chess_engine::board_repr::square::Square;
use chess_engine::move_generation::moves::Move;

#[test]
fn test_move_encoding_and_decoding() {
    let move_one = Move::encode_move(
        Square::H1,
        Square::A8,
        Piece::WhiteRook,
        Piece::BlackKnight,
        Piece::BlackBishop,
        true,
        false,
        true,
    );

    assert_eq!(move_one.source_square(), Square::H1);
    assert_eq!(move_one.target_square(), Square::A8);
    assert_eq!(move_one.piece(), Piece::WhiteRook);
    assert_eq!(move_one.captured_piece(), Piece::BlackKnight);
    assert_eq!(move_one.promoted_piece(), Piece::BlackBishop);
    assert!(move_one.en_passant());
    assert!(!move_one.castling());
    assert!(move_one.double_push());
}

const PIECES: [Piece; 13] = [
    Piece::WhitePawn,
    Piece::WhiteQueen,
    Piece::WhiteKing,
    Piece::WhiteBishop,
    Piece::WhiteKnight,
    Piece::WhiteRook,
    Piece::BlackPawn,
    Piece::BlackQueen,
    Piece::BlackKing,
    Piece::BlackBishop,
    Piece::BlackKnight,
    Piece::BlackRook,
    Piece::Empty,
];

#[test]
fn every_field_comes_back_from_the_word() {
    for s in (0u8..64).step_by(7) {
        for t in (0u8..64).step_by(5) {
            for piece in PIECES {
                for captured in PIECES {
                    for promoted in PIECES {
                        for flags in 0u8..8 {
                            let source = Square::get_by_index(s);
                            let target = Square::get_by_index(t);
                            let m = Move::encode_move(
                                source,
                                target,
                                piece,
                                captured,
                                promoted,
                                flags & 1 != 0,
                                flags & 2 != 0,
                                flags & 4 != 0,
                            );
                            assert_eq!(m.source_square(), source);
                            assert_eq!(m.target_square(), target);
                            assert_eq!(m.piece(), piece);
                            assert_eq!(m.captured_piece(), captured);
                            assert_eq!(m.promoted_piece(), promoted);
                            assert_eq!(m.en_passant(), flags & 1 != 0);
                            assert_eq!(m.castling(), flags & 2 != 0);
                            assert_eq!(m.double_push(), flags & 4 != 0);
                        }
                    }
                }
            }
        }
    }
}

#[test]
fn the_null_move_has_no_piece_and_stays_on_a8() {
    let m = Move::default();
    assert_eq!(m.source_square(), Square::A8);
    assert_eq!(m.target_square(), Square::A8);
    assert_eq!(m.piece(), Piece::Empty);
    assert_eq!(m.captured_piece(), Piece::Empty);
    assert_eq!(m.promoted_piece(), Piece::Empty);
    assert!(!m.en_passant());
    assert!(!m.castling());
    assert!(!m.double_push());
}

#[test]
fn moves_with_the_same_fields_are_equal() {
    let a = Move::encode_move(
        Square::E2,
        Square::E4,
        Piece::WhitePawn,
        Piece::Empty,
        Piece::Empty,
        false,
        false,
        true,
    );
    let b = Move::encode_move(
        Square::E2,
        Square::E4,
        Piece::WhitePawn,
        Piece::Empty,
        Piece::Empty,
        false,
        false,
        true,
    );
    let c = Move::encode_move(
        Square::E2,
        Square::E3,
        Piece::WhitePawn,
        Piece::Empty,
        Piece::Empty,
        false,
        false,
        false,
    );
    assert_eq!(a, b);
    assert_ne!(a, c);
}
