use chess_engine::board_repr::bit_board::BitBoard;
use chess_engine::board_repr::board::Board;
use chess_engine::board_repr::fen::Fen;
use chess_engine::board_repr::game_state::CastleAvailability;
use chess_engine::board_repr::piece::{Color, Piece};
use chess_engine::board_repr::square::Square;

const START: &str = "rnbqkbnr/pppppppp/8/8/8/8/PPPPPPPP/RNBQKBNR w KQkq - 0 1";

#[test]
fn the_start_position_is_read() {
    let state = Fen::to_game_state(START).expect("readable");
    assert_eq!(state.active_color, Color::White);
    assert!(state.castle_settings.can_white_castle_king);
    assert!(state.castle_settings.can_white_castle_queen);
    assert!(state.castle_settings.can_black_castle_king);
    assert!(state.castle_settings.can_black_castle_queen);
    assert_eq!(state.en_passant_target, None);
    assert_eq!(state.halfmove_clock, 0);
    assert_eq!(state.fullmove_number, 1);
    assert_eq!(state.bitboards[Piece::WhitePawn.value() as usize].value(), 0x00ff_0000_0000_0000);
    assert_eq!(state.bitboards[Piece::BlackPawn.value() as usize].value(), 0x0000_0000_0000_ff00);
    assert_eq!(state.bitboards[Piece::WhiteKing.value() as usize].value(), 1u64 << 60);
    assert_eq!(state.bitboards[Piece::BlackKing.value() as usize].value(), 1u64 << 4);
    assert_eq!(state.bitboards[Piece::WhiteRook.value() as usize].value(), (1u64 << 56) | (1u64 << 63));
    assert_eq!(state.bitboards[Piece::BlackQueen.value() as usize].value(), 1u64 << 3);
}

#[test]
fn the_board_of_the_start_position() {
    let board = Fen::to_board(START).expect("readable");
    assert!(board.is_well_formed());
    assert_eq!(board.piece_by_square[Square::E1.index() as usize], Piece::WhiteKing);
    assert_eq!(board.piece_by_square[Square::D8.index() as usize], Piece::BlackQueen);
    assert_eq!(board.piece_by_square[Square::E4.index() as usize], Piece::Empty);
    assert_eq!(board.occupancy[0].value(), 0xffff_0000_0000_0000);
    assert_eq!(board.occupancy[1].value(), 0x0000_0000_0000_ffff);
    assert_eq!(board.get_occupancies(Color::Both).value(), 0xffff_0000_0000_ffff);
    assert_eq!(board.count_men(), 32);
    assert_eq!(board.history.count(), 0);
}

#[test]
fn the_square_to_take_on_in_passing_and_the_counters() {
    let state = Fen::to_game_state(
        "r2qk2r/pp3ppp/2nb1n2/3pp3/1PpPP1b1/P4NP1/2PQBP1P/RNB2RK1 b kq b3 0 9",
    )
    .expect("readable");
    assert_eq!(state.active_color, Color::Black);
    assert_eq!(state.en_passant_target, Some(Square::B3));
    assert!(!state.castle_settings.can_white_castle_king);
    assert!(!state.castle_settings.can_white_castle_queen);
    assert!(state.castle_settings.can_black_castle_king);
    assert!(state.castle_settings.can_black_castle_queen);
    assert_eq!(state.halfmove_clock, 0);
    assert_eq!(state.fullmove_number, 9);
    let upper = Fen::to_game_state("8/8/8/8/8/8/8/8 w - E6 12 255").expect("readable");
    assert_eq!(upper.en_passant_target, Some(Square::E6));
    assert_eq!(upper.halfmove_clock, 12);
    assert_eq!(upper.fullmove_number, 255);
}

#[test]
fn fields_left_out_have_their_value_at_the_start_of_a_game() {
    let state = Fen::to_game_state("8/8/8/8/8/8/8/8").expect("readable");
    assert_eq!(state.active_color, Color::White);
    assert_eq!(state.castle_settings, CastleAvailability::default());
    assert_eq!(state.en_passant_target, None);
    assert_eq!(state.halfmove_clock, 0);
    assert_eq!(state.fullmove_number, 1);
    for board in state.bitboards {
        assert_eq!(board, BitBoard::from(0));
    }
    let state = Fen::to_game_state("8/8/8/8/8/8/8/8 b").expect("readable");
    assert_eq!(state.active_color, Color::Black);
    let state = Fen::to_game_state("8/8/8/8/8/8/8/8 b Kq").expect("readable");
    assert!(state.castle_settings.can_white_castle_king);
    assert!(state.castle_settings.can_black_castle_queen);
    assert!(!state.castle_settings.can_white_castle_queen);
    assert!(!state.castle_settings.can_black_castle_king);
}

#[test]
fn lines_that_cannot_be_read() {
    let bad = [
        "rnbqkbnr/pppppppp/8/8/8/8/PPPPPPPP/RNBQKBNX w KQkq - 0 1",
        "rnbqkbnr/pppppppp/8/8/8/8/PPPPPPPP/RNBQKBNR x KQkq - 0 1",
        "rnbqkbnr/pppppppp/8/8/8/8/PPPPPPPP/RNBQKBNR w KQxq - 0 1",
        "rnbqkbnr/pppppppp/8/8/8/8/PPPPPPPP/RNBQKBNR w KQkq e9 0 1",
        "rnbqkbnr/pppppppp/8/8/8/8/PPPPPPPP/RNBQKBNR w KQkq i3 0 1",
        "rnbqkbnr/pppppppp/8/8/8/8/PPPPPPPP/RNBQKBNR w KQkq - x 1",
        "rnbqkbnr/pppppppp/8/8/8/8/PPPPPPPP/RNBQKBNR w KQkq - 0 256",
        "rnbqkbnr/pppppppp/8/8/8/8/PPPPPPPP/RNBQKBNR w KQkq - 0 1 extra",
        "rnbqkbnr/pppppppp/8/8/8/8/PPPPPPPP/RNBQKBNR w KQkq - 0 ",
        "rnbqkbnr/pppppppp/8/8/8/8/PPPPPPPP/RNBQKBNRR w KQkq - 0 1",
        "9/8/8/8/8/8/8/8/8 w - - 0 1",
        "8/8/8/8/8/8/8/8  w - - 0 1",
    ];
    for line in bad {
        assert!(Fen::to_game_state(line).is_none(), "{line}");
        assert!(Fen::to_board(line).is_none(), "{line}");
    }
}

#[test]
fn from_fen_replaces_the_board_or_leaves_it() {
    let mut board = Fen::to_board(START).expect("readable");
    assert!(board.from_fen("8/1P6/8/8/8/8/1p6/8 b - - 0 1"));
    assert_eq!(board.piece_by_square[Square::B7.index() as usize], Piece::WhitePawn);
    assert_eq!(board.piece_by_square[Square::B2.index() as usize], Piece::BlackPawn);
    assert_eq!(board.count_men(), 2);
    assert_eq!(board.game_state.active_color, Color::Black);
    assert!(!board.from_fen("not a position"));
    assert_eq!(board.piece_by_square[Square::B7.index() as usize], Piece::WhitePawn);
    assert_eq!(board.count_men(), 2);
}

#[test]
fn reading_bytes_is_reading_text() {
    let a = Fen::read(START.as_bytes()).expect("readable");
    let b = Fen::to_game_state(START).expect("readable");
    assert_eq!(a.bitboards, b.bitboards);
    let board: Board = Fen::board_of(START.as_bytes()).expect("readable");
    assert_eq!(board.bitboards, b.bitboards);
}
