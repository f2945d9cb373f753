use chess_engine::board_repr::bit_board::BitBoard;
use chess_engine::board_repr::board::Board;
use chess_engine::board_repr::fen::Fen;
use chess_engine::board_repr::game_state::CastleAvailability;
use chess_engine::board_repr::piece::Color;
use chess_engine::move_generation::generator::MoveGenerator;
use chess_engine::utils::perft::perft;

fn start_board() -> Board {
    let rank1: u64 = 0xff00_0000_0000_0000;
    let rank2: u64 = 0x00ff_0000_0000_0000;
    let rank7: u64 = 0x0000_0000_0000_ff00;
    let rank8: u64 = 0x0000_0000_0000_00ff;
    let files = |mask: u64| -> u64 { mask * 0x0101_0101_0101_0101 };
    let kings = files(0x10);
    let queens = files(0x08);
    let bishops = files(0x24);
    let knights = files(0x42);
    let rooks = files(0x81);
    let bitboards = [
        BitBoard::from(rank2),
        BitBoard::from(queens & rank1),
        BitBoard::from(kings & rank1),
        BitBoard::from(bishops & rank1),
        BitBoard::from(knights & rank1),
        BitBoard::from(rooks & rank1),
        BitBoard::from(rank7),
        BitBoard::from(queens & rank8),
        BitBoard::from(kings & rank8),
        BitBoard::from(bishops & rank8),
        BitBoard::from(knights & rank8),
        BitBoard::from(rooks & rank8),
    ];
    let rights = CastleAvailability {
        can_white_castle_queen: true,
        can_white_castle_king: true,
        can_black_castle_queen: true,
        can_black_castle_king: true,
    };
    Board::new(bitboards, Color::White, rights, None, 0, 1)
}

fn count(fen: &str, depth: i8) -> u64 {
    let mg = MoveGenerator::new().expect("tables");
    let mut board = Fen::to_board(fen).expect("position");
    assert!(board.is_well_formed());
    assert!(board.is_sound(&mg));
    perft(&mut board, &mg, depth)
}

#[test]
fn perft_from_the_start_depth_one() {
    let mg = MoveGenerator::new().expect("tables");
    let mut board = start_board();
    assert_eq!(perft(&mut board, &mg, 1), 20);
}

#[test]
fn perft_from_the_start_depth_two() {
    let mg = MoveGenerator::new().expect("tables");
    let mut board = start_board();
    assert_eq!(perft(&mut board, &mg, 2), 400);
}

#[test]
fn perft_from_the_start_depth_three() {
    let mg = MoveGenerator::new().expect("tables");
    let mut board = start_board();
    assert_eq!(perft(&mut board, &mg, 3), 8902);
}

#[test]
fn perft_depth_zero_counts_the_position_itself() {
    let mg = MoveGenerator::new().expect("tables");
    let mut board = start_board();
    assert_eq!(perft(&mut board, &mg, 0), 1);
}

#[test]
fn perft_leaves_the_board_as_it_was() {
    let mg = MoveGenerator::new().expect("tables");
    let mut board = start_board();
    let before = start_board();
    perft(&mut board, &mg, 3);
    assert_eq!(board.bitboards, before.bitboards);
    assert_eq!(board.occupancy, before.occupancy);
    assert_eq!(board.piece_by_square, before.piece_by_square);
    assert_eq!(board.history.count(), 0);
    assert_eq!(board.game_state.halfmove_clock, 0);
    assert_eq!(board.game_state.fullmove_number, 1);
    assert_eq!(board.game_state.active_color, Color::White);
}

#[test]
fn perft_with_castling_and_pins() {
    let fen = "r3k2r/p1ppqpb1/bn2pnp1/3PN3/1p2P3/2N2Q1p/PPPBBPPP/R3K2R w KQkq - 0 1";
    assert_eq!(count(fen, 1), 48);
    assert_eq!(count(fen, 2), 2039);
    assert_eq!(count(fen, 3), 97862);
}

#[test]
fn perft_with_taking_in_passing() {
    let fen = "8/2p5/3p4/KP5r/1R3p1k/8/4P1P1/8 w - - 0 1";
    assert_eq!(count(fen, 1), 14);
    assert_eq!(count(fen, 2), 191);
    assert_eq!(count(fen, 3), 2812);
    assert_eq!(count(fen, 4), 43238);
}

#[test]
fn perft_with_promotions() {
    let fen = "r2q1rk1/pP1p2pp/Q4n2/bbp1p3/Np6/1B3NBn/pPPP1PPP/R3K2R b KQ - 0 1";
    assert_eq!(count(fen, 1), 6);
    assert_eq!(count(fen, 2), 264);
    assert_eq!(count(fen, 3), 9467);
}

#[test]
fn perft_of_a_middle_game() {
    let fen = "rnbq1k1r/pp1Pbppp/2p5/8/2B5/8/PPP1NnPP/RNBQK2R w KQ - 1 8";
    assert_eq!(count(fen, 1), 44);
    assert_eq!(count(fen, 2), 1486);
    assert_eq!(count(fen, 3), 62379);
}

#[test]
fn perft_of_a_quiet_position() {
    let fen = "r4rk1/1pp1qppp/p1np1n2/2b1p1B1/2B1P1b1/P1NP1N2/1PP1QPPP/R4RK1 w - - 0 10";
    assert_eq!(count(fen, 1), 46);
    assert_eq!(count(fen, 2), 2079);
    assert_eq!(count(fen, 3), 89890);
}
