use chess_engine::board_repr::board::Board;
use chess_engine::board_repr::fen::Fen;
use chess_engine::board_repr::piece::{Color, Piece};
use chess_engine::board_repr::square::Square;
use chess_engine::comm::uci::{move_in_word, read_depth, START_FEN, UCI};
use chess_engine::comm::words::{is_blank_byte, is_word, is_word_in_any_case, next_word, to_lower};
use chess_engine::move_generation::generator::MoveGenerator;
use chess_engine::move_generation::moves::Move;

fn start() -> Board {
    Fen::to_board(START_FEN).expect("readable")
}

#[test]
fn a_move_in_coordinate_notation_is_found_among_the_moves() {
    let mg = MoveGenerator::new().expect("tables");
    let board = start();
    let m = UCI::parse_move("e2e4", &board, &mg).expect("a move");
    assert_eq!(m.source_square(), Square::E2);
    assert_eq!(m.target_square(), Square::E4);
    assert_eq!(m.piece(), Piece::WhitePawn);
    assert!(m.double_push());
    let upper = UCI::parse_move("G1F3", &board, &mg).expect("a move");
    assert_eq!(upper.piece(), Piece::WhiteKnight);
    assert_eq!(UCI::parse_move("e2e5", &board, &mg), None);
    assert_eq!(UCI::parse_move("e2", &board, &mg), None);
    assert_eq!(UCI::parse_move("", &board, &mg), None);
    assert_eq!(UCI::parse_move("a8a8", &board, &mg), None);
    assert_eq!(UCI::parse_move("i2e4", &board, &mg), None);
    assert_eq!(UCI::parse_move("e0e4", &board, &mg), None);
    assert_eq!(move_in_word(b"go e2e4 now", 3, 7, &board, &mg), Some(m));
}

#[test]
fn a_promotion_is_asked_for_by_its_letter_in_either_case() {
    let mg = MoveGenerator::new().expect("tables");
    let board = Fen::to_board("4k3/1P6/8/8/8/8/8/4K3 w - - 0 1").expect("readable");
    let queen = UCI::parse_move("b7b8q", &board, &mg).expect("a move");
    assert_eq!(queen.promoted_piece(), Piece::WhiteQueen);
    let knight = UCI::parse_move("b7b8N", &board, &mg).expect("a move");
    assert_eq!(knight.promoted_piece(), Piece::WhiteKnight);
    assert_eq!(UCI::parse_move("b7b8", &board, &mg), None);
    assert_eq!(UCI::parse_move("b7b8k", &board, &mg), None);
}

#[test]
fn a_move_is_rendered_in_coordinate_notation() {
    let quiet = Move::encode_move(
        Square::E2,
        Square::E4,
        Piece::WhitePawn,
        Piece::Empty,
        Piece::Empty,
        false,
        false,
        true,
    );
    assert_eq!(UCI::render(quiet), b"e2e4".to_vec());
    let promotion = Move::encode_move(
        Square::A2,
        Square::B1,
        Piece::BlackPawn,
        Piece::WhiteKnight,
        Piece::BlackRook,
        false,
        false,
        false,
    );
    assert_eq!(UCI::render(promotion), b"a2b1r".to_vec());
    assert_eq!(UCI::render(Move::default()), b"a8a8".to_vec());
}

#[test]
fn the_text_of_a_generated_move_asks_for_that_move() {
    let mg = MoveGenerator::new().expect("tables");
    let board =
        Fen::to_board("r3k2r/p1ppqpb1/bn2pnp1/3PN3/1p2P3/2N2Q1p/PPPBBPPP/R3K2R w KQkq - 0 1")
            .expect("readable");
    let mut list = chess_engine::move_generation::move_list::MoveList::new();
    mg.generate_moves(&board, &mut list, chess_engine::move_generation::moves::MoveType::All);
    for i in 0..list.count() {
        let m = list.get(i);
        let text = String::from_utf8(UCI::render(m)).expect("ascii");
        assert_eq!(UCI::parse_move(&text, &board, &mg), Some(m));
    }
}

#[test]
fn a_position_line_sets_up_the_board_and_plays_the_moves() {
    let mg = MoveGenerator::new().expect("tables");
    let mut board = start();
    assert!(UCI::parse_position("position startpos moves e2e4 e7e5 g1f3", &mut board, &mg));
    assert_eq!(board.piece_by_square[Square::E4.index() as usize], Piece::WhitePawn);
    assert_eq!(board.piece_by_square[Square::E5.index() as usize], Piece::BlackPawn);
    assert_eq!(board.piece_by_square[Square::F3.index() as usize], Piece::WhiteKnight);
    assert_eq!(board.game_state.active_color, Color::Black);
    assert_eq!(board.history.count(), 3);
    assert_eq!(board.game_state.fullmove_number, 2);
    assert!(UCI::parse_position(
        "position fen 4k3/1P6/8/8/8/8/8/4K3 w - - 0 1 moves b7b8q",
        &mut board,
        &mg
    ));
    assert_eq!(board.piece_by_square[Square::B8.index() as usize], Piece::WhiteQueen);
    assert_eq!(board.history.count(), 1);
    assert!(UCI::parse_position("position   startpos", &mut board, &mg));
    assert_eq!(board.count_men(), 32);
    assert_eq!(board.history.count(), 0);
}

#[test]
fn words_that_ask_for_no_move_and_illegal_moves_are_passed_over() {
    let mg = MoveGenerator::new().expect("tables");
    let mut board = start();
    assert!(UCI::parse_position("position startpos moves e2e5 xyz e2e4", &mut board, &mg));
    assert_eq!(board.history.count(), 1);
    assert_eq!(board.piece_by_square[Square::E4.index() as usize], Piece::WhitePawn);
    assert!(UCI::parse_position(
        "position fen 4k3/8/8/8/8/8/4r3/4K3 w - - 0 1 moves e1d2 e1e2",
        &mut board,
        &mg
    ));
    assert_eq!(board.piece_by_square[Square::E2.index() as usize], Piece::WhiteKing);
    assert_eq!(board.history.count(), 1);
}

#[test]
fn a_position_line_that_cannot_be_used() {
    let mg = MoveGenerator::new().expect("tables");
    let mut board = start();
    assert!(!UCI::parse_position("position fen nonsense moves e2e4", &mut board, &mg));
    assert_eq!(board.count_men(), 32);
    assert!(!UCI::parse_position("position", &mut board, &mg));
    assert_eq!(board.count_men(), 0);
    assert!(!UCI::parse_position("position fen 8/8/8/8/8/8/8/8 w - - 0 1 moves e2e4", &mut board, &mg));
    assert_eq!(board.count_men(), 0);
    assert!(!UCI::parse_position(
        "position fen 4k3/8/8/8/8/8/8/4K3 w - - 255 1 moves e1e2",
        &mut board,
        &mg
    ));
    assert_eq!(board.history.count(), 0);
    assert_eq!(board.count_men(), 2);
    assert_eq!(board.piece_by_square[Square::E1.index() as usize], Piece::WhiteKing);
    assert_eq!(board.game_state.halfmove_clock, 255);
    assert!(UCI::parse_position(
        "position fen 4k3/8/8/8/8/8/8/4K3 w - - 255 1 moves e1e5 xyz",
        &mut board,
        &mg
    ));
    assert_eq!(board.history.count(), 0);
    assert!(!UCI::parse_position(
        "position fen 4k3/8/8/8/8/8/8/4K3 w - - 254 1 moves e1e2 e8e7",
        &mut board,
        &mg
    ));
    assert_eq!(board.history.count(), 1);
    assert_eq!(board.piece_by_square[Square::E2.index() as usize], Piece::WhiteKing);
    assert_eq!(board.piece_by_square[Square::E8.index() as usize], Piece::BlackKing);
}

#[test]
fn the_depth_of_a_go_line() {
    assert_eq!(read_depth(b"go depth 5"), 5);
    assert_eq!(read_depth(b"go"), 0);
    assert_eq!(read_depth(b""), 0);
    assert_eq!(read_depth(b"go DEPTH 3"), 3);
    assert_eq!(read_depth(b"go depth"), 0);
    assert_eq!(read_depth(b"go depth x"), 6);
    assert_eq!(read_depth(b"go depth 5 now"), 6);
    assert_eq!(read_depth(b"go depth 4 7"), 7);
    assert_eq!(read_depth(b"go depth 127"), 127);
    assert_eq!(read_depth(b"go depth 128"), 6);
    assert_eq!(read_depth(b"go depth -128"), -128);
    assert_eq!(read_depth(b"go depth -129"), 6);
    assert_eq!(read_depth(b"go depth +2"), 2);
    assert_eq!(read_depth(b"go depth -"), 6);
    assert_eq!(read_depth(b"go depth 007"), 7);
    assert_eq!(read_depth(b"go\tdepth\n2"), 2);
}

#[test]
fn a_go_line_searches_and_gives_the_best_move() {
    let mg = MoveGenerator::new().expect("tables");
    let mut board = Fen::to_board("6k1/5ppp/8/8/8/8/8/R3K3 w - - 0 1").expect("readable");
    let best = UCI::parse_go("go depth 2", &mut board, &mg).expect("a move");
    assert_eq!(UCI::render(best), b"a1a8".to_vec());
    assert_eq!(board.history.count(), 0);
    assert_eq!(UCI::parse_go("go depth -3", &mut board, &mg), None);
    assert_eq!(UCI::parse_go("go", &mut board, &mg), None);
}

#[test]
fn words_of_a_line() {
    let line = b"  go   depth 5 ";
    assert_eq!(next_word(line, 0), (2, 4));
    assert_eq!(next_word(line, 4), (7, 12));
    assert_eq!(next_word(line, 12), (13, 14));
    assert_eq!(next_word(line, 14), (15, 15));
    assert!(is_word(line, 2, 4, b"go"));
    assert!(!is_word(line, 2, 4, b"GO"));
    assert!(!is_word(line, 2, 4, b"g"));
    assert!(is_word_in_any_case(line, 7, 12, b"DEPTH"));
    assert!(!is_word_in_any_case(line, 7, 12, b"depths"));
    assert!(is_blank_byte(b' ') && is_blank_byte(b'\t') && is_blank_byte(b'\n'));
    assert!(!is_blank_byte(b'a'));
    assert_eq!(to_lower(b'A'), b'a');
    assert_eq!(to_lower(b'z'), b'z');
    assert_eq!(to_lower(b'1'), b'1');
}
