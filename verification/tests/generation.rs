use chess_engine::board_repr::board::Board;
use chess_engine::board_repr::fen::Fen;
use chess_engine::board_repr::piece::Piece;
use chess_engine::board_repr::square::Square;
use chess_engine::move_generation::generator::MoveGenerator;
use chess_engine::move_generation::move_list::MoveList;
use chess_engine::move_generation::moves::{Move, MoveType};

fn board_of(fen: &str) -> Board {
    Fen::to_board(fen).expect("readable")
}

fn collect(list: &MoveList) -> Vec<Move> {
    (0..list.count()).map(|i| list.get(i)).collect()
}

fn pairs(moves: &[Move]) -> Vec<(Square, Square)> {
    moves.iter().map(|m| (m.source_square(), m.target_square())).collect()
}

#[test]
fn the_moves_of_the_start_position_in_their_order() {
    let mg = MoveGenerator::new().expect("tables");
    let board = board_of("rnbqkbnr/pppppppp/8/8/8/8/PPPPPPPP/RNBQKBNR w KQkq - 0 1");
    let mut list = MoveList::new();
    mg.generate_moves(&board, &mut list, MoveType::All);
    let moves = collect(&list);
    assert_eq!(moves.len(), 20);
    assert_eq!(
        pairs(&moves),
        vec![
            (Square::A2, Square::A4),
            (Square::A2, Square::A3),
            (Square::B2, Square::B4),
            (Square::B2, Square::B3),
            (Square::C2, Square::C4),
            (Square::C2, Square::C3),
            (Square::D2, Square::D4),
            (Square::D2, Square::D3),
            (Square::E2, Square::E4),
            (Square::E2, Square::E3),
            (Square::F2, Square::F4),
            (Square::F2, Square::F3),
            (Square::G2, Square::G4),
            (Square::G2, Square::G3),
            (Square::H2, Square::H4),
            (Square::H2, Square::H3),
            (Square::B1, Square::A3),
            (Square::B1, Square::C3),
            (Square::G1, Square::F3),
            (Square::G1, Square::H3),
        ]
    );
    assert!(moves[0].double_push());
    assert!(!moves[1].double_push());
    assert!(moves.iter().all(|m| m.captured_piece() == Piece::Empty));
    let mut captures = MoveList::new();
    mg.generate_moves(&board, &mut captures, MoveType::Capture);
    assert_eq!(captures.count(), 0);
}

#[test]
fn generation_appends_to_the_list() {
    let mg = MoveGenerator::new().expect("tables");
    let board = board_of("rnbqkbnr/pppppppp/8/8/8/8/PPPPPPPP/RNBQKBNR w KQkq - 0 1");
    let mut list = MoveList::new();
    mg.generate_pawn_moves(&board, &mut list, MoveType::All);
    assert_eq!(list.count(), 16);
    mg.generate_castling_moves(&board, &mut list);
    assert_eq!(list.count(), 16);
    mg.generate_piece_moves(Piece::WhiteKnight, &board, &mut list, MoveType::All);
    assert_eq!(list.count(), 20);
    mg.generate_piece_moves(Piece::WhiteRook, &board, &mut list, MoveType::All);
    assert_eq!(list.count(), 20);
}

#[test]
fn captures_only() {
    let mg = MoveGenerator::new().expect("tables");
    let board = board_of("4k3/8/8/3p1n2/4P3/8/8/4KB2 w - - 0 1");
    let mut list = MoveList::new();
    mg.generate_moves(&board, &mut list, MoveType::Capture);
    let moves = collect(&list);
    assert_eq!(pairs(&moves), vec![(Square::E4, Square::D5), (Square::E4, Square::F5)]);
    assert_eq!(moves[0].captured_piece(), Piece::BlackPawn);
    assert_eq!(moves[1].captured_piece(), Piece::BlackKnight);
}

#[test]
fn quiet_moves_of_pieces_go_to_squares_that_hold_a_man() {
    let mg = MoveGenerator::new().expect("tables");
    let board = board_of("4k3/8/8/8/8/2p5/3P4/1N2K3 w - - 0 1");
    let mut list = MoveList::new();
    mg.generate_piece_moves(Piece::WhiteKnight, &board, &mut list, MoveType::Quite);
    assert_eq!(pairs(&collect(&list)), vec![(Square::B1, Square::C3), (Square::B1, Square::D2)]);
    let mut pawns = MoveList::new();
    mg.generate_pawn_moves(&board, &mut pawns, MoveType::Quite);
    assert_eq!(pairs(&collect(&pawns)), vec![(Square::D2, Square::D4), (Square::D2, Square::D3)]);
}

#[test]
fn add_move_reads_the_marks_off_the_board() {
    let mg = MoveGenerator::new().expect("tables");
    let board = board_of("4k3/8/8/8/3p4/8/4P3/4K3 w - d3 0 1");
    let mut list = MoveList::new();
    let mut targets = Square::E3.get_bitboard();
    targets |= Square::E4.get_bitboard();
    targets |= Square::D3.get_bitboard();
    mg.add_move(&board, Piece::WhitePawn, Square::E2, targets, &mut list);
    let moves = collect(&list);
    assert_eq!(
        pairs(&moves),
        vec![(Square::E2, Square::E4), (Square::E2, Square::D3), (Square::E2, Square::E3)]
    );
    assert!(moves[0].double_push() && !moves[0].en_passant());
    assert!(moves[1].en_passant() && !moves[1].double_push());
    assert!(!moves[2].en_passant() && !moves[2].double_push() && !moves[2].castling());
}
