use chess_engine::board_repr::bit_board::BitBoard;
use chess_engine::board_repr::board::Board;
use chess_engine::board_repr::fen::Fen;
use chess_engine::board_repr::game_state::{CastleAvailability, GameState};
use chess_engine::board_repr::history::History;
use chess_engine::board_repr::piece::{Color, Piece};
use chess_engine::board_repr::square::Square;
use chess_engine::move_generation::generator::MoveGenerator;
use chess_engine::move_generation::move_list::MoveList;
use chess_engine::move_generation::moves::{Move, MoveType};

const START: &str = "rnbqkbnr/pppppppp/8/8/8/8/PPPPPPPP/RNBQKBNR w KQkq - 0 1";

fn board_of(fen: &str) -> Board {
    Fen::to_board(fen).expect("readable")
}

fn moves_of(board: &Board, mg: &MoveGenerator, kind: MoveType) -> Vec<Move> {
    let mut list = MoveList::new();
    mg.generate_moves(board, &mut list, kind);
    (0..list.count()).map(|i| list.get(i)).collect()
}

fn find(board: &Board, mg: &MoveGenerator, source: Square, target: Square) -> Move {
    moves_of(board, mg, MoveType::All)
        .into_iter()
        .find(|m| m.source_square() == source && m.target_square() == target)
        .expect("the move is generated")
}

fn snapshot(board: &Board) -> ([BitBoard; 12], [BitBoard; 2], [Piece; 64], Color, CastleAvailability, Option<Square>, u8, u8, usize) {
    (
        board.bitboards,
        board.occupancy,
        board.piece_by_square,
        board.game_state.active_color,
        board.game_state.castle_settings,
        board.game_state.en_passant_target,
        board.game_state.halfmove_clock,
        board.game_state.fullmove_number,
        board.history.count(),
    )
}

#[test]
fn set_and_remove_keep_the_three_forms_together() {
    let mut board = board_of("8/8/8/8/8/8/8/8 w - - 0 1");
    board.set_piece(Square::E4, Piece::WhiteKnight);
    assert_eq!(board.piece_by_square[36], Piece::WhiteKnight);
    assert_eq!(board.bitboards[Piece::WhiteKnight.value() as usize].value(), 1u64 << 36);
    assert_eq!(board.occupancy[0].value(), 1u64 << 36);
    assert_eq!(board.occupancy[1].value(), 0);
    assert!(board.is_well_formed());
    board.set_piece(Square::A8, Piece::BlackRook);
    assert_eq!(board.occupancy[1].value(), 1);
    assert!(board.is_well_formed());
    board.move_piece(Square::E4, Square::F6, Piece::WhiteKnight);
    assert_eq!(board.piece_by_square[36], Piece::Empty);
    assert_eq!(board.piece_by_square[21], Piece::WhiteKnight);
    assert_eq!(board.occupancy[0].value(), 1u64 << 21);
    assert!(board.is_well_formed());
    board.reverse_move(Square::E4, Square::F6, Piece::WhiteKnight);
    assert_eq!(board.piece_by_square[36], Piece::WhiteKnight);
    assert_eq!(board.piece_by_square[21], Piece::Empty);
    board.remove_piece(Square::E4, Piece::WhiteKnight);
    board.remove_piece(Square::A8, Piece::BlackRook);
    assert_eq!(board.count_men(), 0);
    assert_eq!(board.get_occupancies(Color::Both).value(), 0);
    assert!(board.is_well_formed());
}

#[test]
fn a_board_whose_forms_disagree_is_not_well_formed() {
    let mut board = board_of(START);
    board.piece_by_square[36] = Piece::WhiteQueen;
    assert!(!board.is_well_formed());
    let mut board = board_of(START);
    board.occupancy[0] = BitBoard::from(0);
    assert!(!board.is_well_formed());
    let mut board = board_of(START);
    board.bitboards[0] = BitBoard::from(1);
    assert!(!board.is_well_formed());
}

#[test]
fn new_reads_the_men_off_the_sets() {
    let mut sets = [BitBoard::from(0); 12];
    sets[Piece::WhiteKing.value() as usize] = BitBoard::from(1u64 << 60);
    sets[Piece::BlackKing.value() as usize] = BitBoard::from(1u64 << 4);
    let board = Board::new(sets, Color::Black, CastleAvailability::default(), Some(Square::E3), 7, 9);
    assert_eq!(board.piece_by_square[60], Piece::WhiteKing);
    assert_eq!(board.piece_by_square[4], Piece::BlackKing);
    assert_eq!(board.occupancy[0].value(), 1u64 << 60);
    assert_eq!(board.occupancy[1].value(), 1u64 << 4);
    assert_eq!(board.active_color(), Color::Black);
    assert_eq!(board.opponent_color(), Color::White);
    assert_eq!(board.game_state.en_passant_target, Some(Square::E3));
    assert_eq!(board.game_state.halfmove_clock, 7);
    assert_eq!(board.game_state.fullmove_number, 9);
    assert_eq!(*board.castle_settings(), CastleAvailability::default());
    assert_eq!(Board::init_occupancy(sets), board.occupancy);
    assert_eq!(Board::init_piece_by_square(sets), board.piece_by_square);
}

#[test]
fn where_two_sets_hold_a_square_the_first_man_stands_on_it() {
    let mut sets = [BitBoard::from(0); 12];
    sets[Piece::WhiteQueen.value() as usize] = BitBoard::from(1);
    sets[Piece::BlackPawn.value() as usize] = BitBoard::from(1);
    let cache = Board::init_piece_by_square(sets);
    assert_eq!(cache[0], Piece::WhiteQueen);
}

#[test]
fn castle_settings_can_be_changed_through_the_board() {
    let mut board = board_of(START);
    board.castle_settings_mut().set_by_square(Square::E1);
    assert!(!board.castle_settings().can_white_castle_king);
    assert!(!board.castle_settings().can_white_castle_queen);
    assert!(board.castle_settings().can_black_castle_king);
    assert!(board.castle_settings().can_black_castle_queen);
}

#[test]
fn rights_go_with_the_squares() {
    let all = CastleAvailability {
        can_white_castle_queen: true,
        can_white_castle_king: true,
        can_black_castle_queen: true,
        can_black_castle_king: true,
    };
    let mut r = all;
    r.set_by_square(Square::A1);
    assert_eq!(r, CastleAvailability { can_white_castle_queen: false, ..all });
    let mut r = all;
    r.set_by_square(Square::H1);
    assert_eq!(r, CastleAvailability { can_white_castle_king: false, ..all });
    let mut r = all;
    r.set_by_square(Square::A8);
    assert_eq!(r, CastleAvailability { can_black_castle_queen: false, ..all });
    let mut r = all;
    r.set_by_square(Square::H8);
    assert_eq!(r, CastleAvailability { can_black_castle_king: false, ..all });
    let mut r = all;
    r.set_by_square(Square::E8);
    assert_eq!(
        r,
        CastleAvailability { can_black_castle_king: false, can_black_castle_queen: false, ..all }
    );
    let mut r = all;
    r.set_by_square(Square::E4);
    assert_eq!(r, all);
}

#[test]
fn history_is_a_stack() {
    let mut history = History::new();
    assert_eq!(history.count(), 0);
    let mut first = GameState::default();
    first.halfmove_clock = 3;
    let mut second = GameState::default();
    second.halfmove_clock = 5;
    history.push(first);
    history.push(second);
    assert_eq!(history.count(), 2);
    assert_eq!(history.pop().halfmove_clock, 5);
    assert_eq!(history.pop().halfmove_clock, 3);
    assert_eq!(history.count(), 0);
    assert_eq!(History::default().count(), 0);
}

#[test]
fn make_then_unmake_gives_the_board_back() {
    let mg = MoveGenerator::new().expect("tables");
    let positions = [
        START,
        "r3k2r/p1ppqpb1/bn2pnp1/3PN3/1p2P3/2N2Q1p/PPPBBPPP/R3K2R w KQkq - 0 1",
        "r2qk2r/pp3ppp/2nb1n2/3pp3/1PpPP1b1/P4NP1/2PQBP1P/RNB2RK1 b kq b3 0 9",
        "r2q1rk1/pP1p2pp/Q4n2/bbp1p3/Np6/1B3NBn/pPPP1PPP/R3K2R b KQ - 0 1",
        "8/2p5/3p4/KP5r/1R3p1k/8/4P1P1/8 w - - 0 1",
    ];
    for fen in positions {
        let mut board = board_of(fen);
        assert!(board.is_sound(&mg));
        let before = snapshot(&board);
        let mut legal = 0;
        for m in moves_of(&board, &mg, MoveType::All) {
            if board.make_move(m, &mg) {
                legal += 1;
                assert!(board.is_well_formed());
                assert!(board.is_sound(&mg));
                assert_eq!(board.history.count(), 1);
                board.unmake_move();
            }
            assert_eq!(snapshot(&board), before, "{fen}");
            assert_eq!(board.game_state.next_move, m);
        }
        assert!(legal > 0);
    }
}

#[test]
fn a_double_step_sets_the_square_to_take_on_in_passing() {
    let mg = MoveGenerator::new().expect("tables");
    let mut board = board_of(START);
    let m = find(&board, &mg, Square::E2, Square::E4);
    assert!(m.double_push());
    assert!(board.make_move(m, &mg));
    assert_eq!(board.game_state.en_passant_target, Some(Square::E3));
    assert_eq!(board.game_state.active_color, Color::Black);
    assert_eq!(board.game_state.halfmove_clock, 1);
    assert_eq!(board.game_state.fullmove_number, 1);
    assert_eq!(board.piece_by_square[Square::E4.index() as usize], Piece::WhitePawn);
    assert_eq!(board.piece_by_square[Square::E2.index() as usize], Piece::Empty);
    let reply = find(&board, &mg, Square::G8, Square::F6);
    assert!(board.make_move(reply, &mg));
    assert_eq!(board.game_state.en_passant_target, None);
    assert_eq!(board.game_state.active_color, Color::White);
    assert_eq!(board.game_state.halfmove_clock, 2);
    assert_eq!(board.game_state.fullmove_number, 2);
    assert_eq!(board.history.count(), 2);
}

#[test]
fn taking_in_passing_takes_the_pawn_next_to_the_target() {
    let mg = MoveGenerator::new().expect("tables");
    let mut board = board_of("r2qk2r/pp3ppp/2nb1n2/3pp3/1PpPP1b1/P4NP1/2PQBP1P/RNB2RK1 b kq b3 0 9");
    let m = find(&board, &mg, Square::C4, Square::B3);
    assert!(m.en_passant());
    assert_eq!(m.captured_piece(), Piece::Empty);
    assert!(board.make_move(m, &mg));
    assert_eq!(board.piece_by_square[Square::B3.index() as usize], Piece::BlackPawn);
    assert_eq!(board.piece_by_square[Square::B4.index() as usize], Piece::Empty);
    assert_eq!(board.piece_by_square[Square::C4.index() as usize], Piece::Empty);
    assert_eq!(board.count_men(), 31);
    board.unmake_move();
    assert_eq!(board.piece_by_square[Square::B4.index() as usize], Piece::WhitePawn);
    assert_eq!(board.piece_by_square[Square::C4.index() as usize], Piece::BlackPawn);
    assert_eq!(board.piece_by_square[Square::B3.index() as usize], Piece::Empty);
    assert_eq!(board.count_men(), 32);
}

#[test]
fn castling_moves_the_rook_and_takes_the_rights() {
    let mg = MoveGenerator::new().expect("tables");
    let mut board = board_of("r3k2r/pppppppp/8/8/8/8/PPPPPPPP/R3K2R w KQkq - 0 1");
    let short = find(&board, &mg, Square::E1, Square::G1);
    assert!(short.castling());
    assert!(board.make_move(short, &mg));
    assert_eq!(board.piece_by_square[Square::G1.index() as usize], Piece::WhiteKing);
    assert_eq!(board.piece_by_square[Square::F1.index() as usize], Piece::WhiteRook);
    assert_eq!(board.piece_by_square[Square::H1.index() as usize], Piece::Empty);
    assert_eq!(board.piece_by_square[Square::E1.index() as usize], Piece::Empty);
    assert!(!board.game_state.castle_settings.can_white_castle_king);
    assert!(!board.game_state.castle_settings.can_white_castle_queen);
    assert!(board.game_state.castle_settings.can_black_castle_king);
    let long = find(&board, &mg, Square::E8, Square::C8);
    assert!(long.castling());
    assert!(board.make_move(long, &mg));
    assert_eq!(board.piece_by_square[Square::C8.index() as usize], Piece::BlackKing);
    assert_eq!(board.piece_by_square[Square::D8.index() as usize], Piece::BlackRook);
    assert_eq!(board.piece_by_square[Square::A8.index() as usize], Piece::Empty);
    assert!(!board.game_state.castle_settings.can_black_castle_king);
    assert!(!board.game_state.castle_settings.can_black_castle_queen);
    board.unmake_move();
    board.unmake_move();
    assert_eq!(board.piece_by_square[Square::E1.index() as usize], Piece::WhiteKing);
    assert_eq!(board.piece_by_square[Square::H1.index() as usize], Piece::WhiteRook);
    assert_eq!(board.piece_by_square[Square::E8.index() as usize], Piece::BlackKing);
    assert_eq!(board.piece_by_square[Square::A8.index() as usize], Piece::BlackRook);
    assert!(board.game_state.castle_settings.can_white_castle_king);
    assert!(board.game_state.castle_settings.can_black_castle_queen);
}

#[test]
fn no_castling_out_of_or_through_check() {
    let mg = MoveGenerator::new().expect("tables");
    let in_check = board_of("4k3/8/8/8/8/8/4r3/R3K2R w KQ - 0 1");
    assert!(in_check.is_king_in_check(&mg));
    assert!(moves_of(&in_check, &mg, MoveType::All).iter().all(|m| !m.castling()));
    let through = board_of("4k3/8/8/8/8/8/5r2/R3K2R w KQ - 0 1");
    let castles: Vec<Move> =
        moves_of(&through, &mg, MoveType::All).into_iter().filter(|m| m.castling()).collect();
    assert_eq!(castles.len(), 1);
    assert_eq!(castles[0].target_square(), Square::C1);
    let knight_side = board_of("4k3/8/8/8/8/8/1r6/R3K2R w KQ - 0 1");
    let castles =
        moves_of(&knight_side, &mg, MoveType::All).into_iter().filter(|m| m.castling()).count();
    assert_eq!(castles, 2);
}

#[test]
fn a_promotion_comes_in_four_kinds_and_is_taken_back_as_a_pawn() {
    let mg = MoveGenerator::new().expect("tables");
    let mut board = board_of("4k3/1P6/8/8/8/8/8/4K3 w - - 0 1");
    let promotions: Vec<Move> = moves_of(&board, &mg, MoveType::All)
        .into_iter()
        .filter(|m| m.source_square() == Square::B7)
        .collect();
    let kinds: Vec<Piece> = promotions.iter().map(|m| m.promoted_piece()).collect();
    assert_eq!(
        kinds,
        vec![Piece::WhiteRook, Piece::WhiteQueen, Piece::WhiteBishop, Piece::WhiteKnight]
    );
    let queen = promotions[1];
    assert!(board.make_move(queen, &mg));
    assert_eq!(board.piece_by_square[Square::B8.index() as usize], Piece::WhiteQueen);
    assert_eq!(board.piece_by_square[Square::B7.index() as usize], Piece::Empty);
    board.unmake_move();
    assert_eq!(board.piece_by_square[Square::B7.index() as usize], Piece::WhitePawn);
    assert_eq!(board.piece_by_square[Square::B8.index() as usize], Piece::Empty);
}

#[test]
fn a_capture_sets_the_clock_back_and_takes_the_right_of_a_taken_rook() {
    let mg = MoveGenerator::new().expect("tables");
    let mut board = board_of("r3k2r/8/8/8/8/8/8/R3K2R w KQkq - 5 1");
    let m = find(&board, &mg, Square::A1, Square::A8);
    assert_eq!(m.captured_piece(), Piece::BlackRook);
    assert!(board.make_move(m, &mg));
    assert_eq!(board.game_state.halfmove_clock, 0);
    assert!(!board.game_state.castle_settings.can_white_castle_queen);
    assert!(!board.game_state.castle_settings.can_black_castle_queen);
    assert!(board.game_state.castle_settings.can_white_castle_king);
    assert!(board.game_state.castle_settings.can_black_castle_king);
    assert_eq!(board.count_men(), 5);
}

#[test]
fn a_move_that_leaves_the_king_in_check_is_taken_back() {
    let mg = MoveGenerator::new().expect("tables");
    let mut board = board_of("4k3/8/8/8/8/8/4r3/4K3 w - - 0 1");
    let before = snapshot(&board);
    let stay = find(&board, &mg, Square::E1, Square::D2);
    assert!(!board.make_move(stay, &mg));
    assert_eq!(snapshot(&board), before);
    let take = find(&board, &mg, Square::E1, Square::E2);
    assert!(board.make_move(take, &mg));
}

#[test]
fn attacked_squares() {
    let mg = MoveGenerator::new().expect("tables");
    let board = board_of(START);
    assert!(mg.is_square_attacked(Square::E3, Color::White, &board));
    assert!(mg.is_square_attacked(Square::F3, Color::White, &board));
    assert!(!mg.is_square_attacked(Square::E4, Color::White, &board));
    assert!(mg.is_square_attacked(Square::E6, Color::Black, &board));
    assert!(!mg.is_square_attacked(Square::E5, Color::Black, &board));
    assert!(!mg.is_square_attacked(Square::E3, Color::Black, &board));
    assert!(!board.is_king_in_check(&mg));
    let pawns = board_of("4k3/8/8/3p4/8/8/8/4K3 w - - 0 1");
    assert!(mg.is_square_attacked(Square::C4, Color::Black, &pawns));
    assert!(mg.is_square_attacked(Square::E4, Color::Black, &pawns));
    assert!(!mg.is_square_attacked(Square::D4, Color::Black, &pawns));
    assert!(!mg.is_square_attacked(Square::C6, Color::Black, &pawns));
}

#[test]
fn soundness_of_positions() {
    let mg = MoveGenerator::new().expect("tables");
    assert!(board_of(START).is_sound(&mg));
    assert!(!board_of("8/8/8/8/8/8/8/8 w - - 0 1").is_sound(&mg));
    assert!(!board_of("4k3/8/8/8/8/8/8/8 w - - 0 1").is_sound(&mg));
    assert!(!board_of("4k3/8/8/8/8/8/8/3KK3 w - - 0 1").is_sound(&mg));
    assert!(!board_of("4k3/8/8/8/8/8/4R3/4K3 w - - 0 1").is_sound(&mg));
    assert!(board_of("4k3/8/8/8/8/8/4R3/4K3 b - - 0 1").is_sound(&mg));
    assert!(!board_of("4k3/8/8/8/8/8/8/4K3 w K - 0 1").is_sound(&mg));
    assert!(!board_of("1P2k3/8/8/8/8/8/8/4K3 w - - 0 1").is_sound(&mg));
    assert!(!board_of("4k3/8/8/8/8/8/8/4K3 w - e3 0 1").is_sound(&mg));
    assert!(board_of("4k3/8/8/8/4P3/8/8/4K3 b - e3 0 1").is_sound(&mg));
}
