use chess_engine::board_repr::board::Board;
use chess_engine::board_repr::fen::Fen;
use chess_engine::board_repr::piece::Piece;
use chess_engine::board_repr::square::Square;
use chess_engine::evaluation::eval::evaluate;
use chess_engine::move_generation::generator::MoveGenerator;
use chess_engine::move_generation::move_list::MoveList;
use chess_engine::move_generation::moves::{Move, MoveType};
use chess_engine::search::negamax::{search_root, Search};

const START: &str = "rnbqkbnr/pppppppp/8/8/8/8/PPPPPPPP/RNBQKBNR w KQkq - 0 1";

fn board_of(fen: &str) -> Board {
    Fen::to_board(fen).expect("readable")
}

fn legal_moves(board: &mut Board, mg: &MoveGenerator) -> Vec<Move> {
    let mut list = MoveList::new();
    mg.generate_moves(board, &mut list, MoveType::All);
    let mut legal = Vec::new();
    for i in 0..list.count() {
        let m = list.get(i);
        if board.make_move(m, mg) {
            board.unmake_move();
            legal.push(m);
        }
    }
    legal
}

#[test]
fn a_new_search_starts_at_the_root() {
    let mg = MoveGenerator::new().expect("tables");
    let mut board = board_of(START);
    let search = Search::new(&mut board, &mg);
    assert_eq!(search.nodes, 0);
    assert_eq!(search.ply, 0);
    assert_eq!(search.best_move, None);
    assert!(search.is_ready(3));
    assert!(search.has_room(3));
    assert!(!search.is_ready(-1));
}

#[test]
fn mate_scores_thirty_thousand_below_zero_plus_the_ply() {
    let mg = MoveGenerator::new().expect("tables");
    let mated = "R5k1/5ppp/8/8/8/8/8/4K3 b - - 0 1";
    for depth in 1..4 {
        let mut board = board_of(mated);
        let mut search = Search::new(&mut board, &mg);
        assert_eq!(search.alpha_beta(-32000, 32000, depth), -30000);
        assert_eq!(search.best_move, None);
    }
    let mut last = -32000;
    for ply in [1u32, 2, 5, 40] {
        let mut board = board_of(mated);
        let mut search = Search::new(&mut board, &mg);
        search.ply = ply;
        let score = search.alpha_beta(-32000, 32000, 1);
        assert_eq!(score, -30000 + ply as i16);
        assert!(score > last);
        last = score;
        assert_eq!(search.ply, ply);
    }
}

#[test]
fn stalemate_scores_zero() {
    let mg = MoveGenerator::new().expect("tables");
    for depth in 1..4 {
        let mut board = board_of("7k/5Q2/6K1/8/8/8/8/8 b - - 0 1");
        let mut search = Search::new(&mut board, &mg);
        assert_eq!(search.alpha_beta(-32000, 32000, depth), 0);
        assert_eq!(search.best_move, None);
    }
}

#[test]
fn the_search_finds_the_mate_in_one() {
    let mg = MoveGenerator::new().expect("tables");
    let mut board = board_of("6k1/5ppp/8/8/8/8/8/R3K3 w - - 0 1");
    let mut search = Search::new(&mut board, &mg);
    let score = search.alpha_beta(-32000, 32000, 2);
    assert_eq!(score, 29999);
    let best = search.best_move.expect("a move was found");
    assert_eq!(best.source_square(), Square::A1);
    assert_eq!(best.target_square(), Square::A8);
    assert_eq!(best.piece(), Piece::WhiteRook);
}

#[test]
fn the_best_move_is_one_of_the_legal_moves() {
    let mg = MoveGenerator::new().expect("tables");
    let positions = [
        START,
        "r3k2r/p1ppqpb1/bn2pnp1/3PN3/1p2P3/2N2Q1p/PPPBBPPP/R3K2R w KQkq - 0 1",
        "8/2p5/3p4/KP5r/1R3p1k/8/4P1P1/8 w - - 0 1",
        "r2q1rk1/pP1p2pp/Q4n2/bbp1p3/Np6/1B3NBn/pPPP1PPP/R3K2R b KQ - 0 1",
    ];
    for fen in positions {
        for depth in 1..3 {
            let mut board = board_of(fen);
            let legal = legal_moves(&mut board, &mg);
            let best = search_root(&mut board, &mg, depth).expect("a move was found");
            assert!(legal.contains(&best), "{fen} at depth {depth}");
        }
    }
}

#[test]
fn the_search_leaves_the_board_as_it_was() {
    let mg = MoveGenerator::new().expect("tables");
    let mut board = board_of(START);
    let before = board_of(START);
    let mut search = Search::new(&mut board, &mg);
    search.alpha_beta(-32000, 32000, 3);
    assert!(search.nodes > 0);
    assert_eq!(search.ply, 0);
    assert_eq!(board.bitboards, before.bitboards);
    assert_eq!(board.occupancy, before.occupancy);
    assert_eq!(board.piece_by_square, before.piece_by_square);
    assert_eq!(board.history.count(), 0);
    assert_eq!(board.game_state.halfmove_clock, 0);
    assert_eq!(board.game_state.fullmove_number, 1);
}

#[test]
fn depth_one_counts_one_node() {
    let mg = MoveGenerator::new().expect("tables");
    let mut board = board_of(START);
    let mut search = Search::new(&mut board, &mg);
    search.alpha_beta(-32000, 32000, 1);
    assert_eq!(search.nodes, 1);
    let mut board = board_of(START);
    let mut search = Search::new(&mut board, &mg);
    search.alpha_beta(-32000, 32000, 0);
    assert_eq!(search.nodes, 0);
    assert_eq!(search.best_move, None);
}

#[test]
fn a_score_at_or_above_beta_gives_beta() {
    let mg = MoveGenerator::new().expect("tables");
    let mut board = board_of("6k1/5ppp/8/8/8/8/8/R3K3 w - - 0 1");
    let mut search = Search::new(&mut board, &mg);
    assert_eq!(search.alpha_beta(-100, 50, 2), 50);
    let mut board = board_of("6k1/5ppp/8/8/8/8/8/R3K3 w - - 0 1");
    let mut search = Search::new(&mut board, &mg);
    assert_eq!(search.quiescence(-100, 50), 50);
}

#[test]
fn quiescence_stands_pat_without_captures() {
    let mg = MoveGenerator::new().expect("tables");
    let mut board = board_of(START);
    let stand = evaluate(&board);
    let mut search = Search::new(&mut board, &mg);
    assert_eq!(search.quiescence(-32000, 32000), stand);
    let mut board = board_of(START);
    let mut search = Search::new(&mut board, &mg);
    assert_eq!(search.quiescence(stand + 10, 32000), stand + 10);
}

#[test]
fn quiescence_takes_what_hangs() {
    let mg = MoveGenerator::new().expect("tables");
    let mut board = board_of("4k3/8/8/3q4/4P3/8/8/4K3 w - - 0 1");
    let stand = evaluate(&board);
    let mut search = Search::new(&mut board, &mg);
    let score = search.quiescence(-32000, 32000);
    assert!(score > stand);
    assert_eq!(board.count_men(), 4);
}

#[test]
fn a_board_that_is_not_ready_is_not_searched() {
    let mg = MoveGenerator::new().expect("tables");
    let mut empty = board_of("8/8/8/8/8/8/8/8 w - - 0 1");
    assert_eq!(search_root(&mut empty, &mg, 2), None);
    let mut late = board_of("4k3/8/8/8/8/8/8/4K3 w - - 250 1");
    assert_eq!(search_root(&mut late, &mg, 4), None);
    let mut board = board_of(START);
    assert_eq!(search_root(&mut board, &mg, -1), None);
}

#[test]
fn the_static_score() {
    assert_eq!(evaluate(&board_of(START)), -90);
    assert_eq!(evaluate(&board_of("8/8/8/8/8/8/8/8 w - - 0 1")), 0);
    assert_eq!(evaluate(&board_of("4k3/8/8/8/8/8/8/4K3 w - - 0 1")), 30);
    assert_eq!(evaluate(&board_of("4k3/8/8/8/8/8/8/Q3K3 w - - 0 1")), 1030);
    assert_eq!(evaluate(&board_of("4k3/8/8/8/3P4/8/8/4K3 w - - 0 1")), 150);
    assert_eq!(evaluate(&board_of("4k3/8/8/3p4/8/8/8/4K3 w - - 0 1")), -50);
    assert_eq!(evaluate(&board_of("4k3/8/8/8/8/8/8/R3K3 w - - 0 1")), 530);
    assert_eq!(evaluate(&board_of("4k3/8/8/8/8/8/8/1N2K3 w - - 0 1")), 320);
    assert_eq!(evaluate(&board_of("4k3/8/8/8/8/8/8/2B1K3 w - - 0 1")), 370);
}

#[test]
fn the_static_score_is_held_to_sixteen_bits() {
    let mut board = board_of("8/8/8/8/8/8/8/8 w - - 0 1");
    for n in 0u8..8 {
        board.set_piece(Square::get_by_index(n), Piece::WhiteKing);
    }
    assert_eq!(evaluate(&board), 32767);
    let mut board = board_of("8/8/8/8/8/8/8/8 w - - 0 1");
    for n in 0u8..8 {
        board.set_piece(Square::get_by_index(n), Piece::BlackKing);
    }
    assert_eq!(evaluate(&board), -32767);
}
