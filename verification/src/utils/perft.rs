use vstd::prelude::*;
use crate::board_repr::board::Board;
use crate::board_repr::history::MAX_MOVES;
use crate::board_repr::position::Position;
use crate::move_generation::generator::MoveGenerator;
use crate::move_generation::moves::MoveType;
use crate::move_generation::play::lemma_same_board;
use crate::move_generation::play::same_board;
use crate::move_generation::rules::parts;
use crate::move_generation::rules::pseudo_moves;

verus! {

/// The number of ways to play `depth` legal moves in a row from the position.
pub open spec fn perft_count(pos: Position, depth: int) -> int
    decreases depth, 1int, 0int,
{
    if depth <= 0 {
        1
    } else {
        perft_from(pos, 0, depth)
    }
}

/// The part of `perft_count` that the moves from place `i` of the list on add.
pub open spec fn perft_from(pos: Position, i: int, depth: int) -> int
    decreases depth, 0int, pseudo_moves(pos, MoveType::All).len() - i,
{
    let moves = pseudo_moves(pos, MoveType::All);
    if depth <= 0 || i < 0 || i >= moves.len() {
        0
    } else {
        (if pos.is_legal(moves[i]) {
            perft_count(pos.made(moves[i]), depth - 1)
        } else {
            0
        }) + perft_from(pos, i + 1, depth)
    }
}

/// A count held to what 64 bits can carry.
pub open spec fn held64(x: int) -> int {
    if x > u64::MAX {
        u64::MAX as int
    } else {
        x
    }
}

/// The counts are never negative.
pub proof fn lemma_perft_nonnegative(pos: Position, i: int, depth: int)
    ensures
        perft_count(pos, depth) >= 0,
        perft_from(pos, i, depth) >= 0,
    decreases depth, 2int, pseudo_moves(pos, MoveType::All).len() - i,
{
    let moves = pseudo_moves(pos, MoveType::All);
    if depth > 0 {
        lemma_perft_all(pos, 0, depth);
        lemma_perft_all(pos, i, depth);
    }
}

proof fn lemma_perft_all(pos: Position, i: int, depth: int)
    requires
        depth > 0,
    ensures
        perft_from(pos, i, depth) >= 0,
    decreases depth, 1int, pseudo_moves(pos, MoveType::All).len() - i,
{
    let moves = pseudo_moves(pos, MoveType::All);
    if 0 <= i < moves.len() {
        lemma_perft_nonnegative(pos.made(moves[i]), 0, depth - 1);
        lemma_perft_all(pos, i + 1, depth);
    }
}

/// Counts the ways to play `depth` legal moves in a row from the position
/// on the board; a count beyond 64 bits is held at their end. The board
/// comes back as it was.
pub fn perft(board: &mut Board, mg: &MoveGenerator, depth: i8) -> (nodes: u64)
    requires
        old(board).wf(),
        mg.wf(),
        old(board)@.sound(),
        depth > 0 ==> old(board).history@.len() + depth <= MAX_MOVES && old(
            board).game_state.halfmove_clock + depth <= 255 && old(
            board).game_state.fullmove_number + depth <= 255,
    ensures
        nodes == held64(perft_count(old(board)@, depth as int)),
        final(board).wf(),
        same_board(final(board), old(board)),
        final(board).game_state.halfmove_clock == old(board).game_state.halfmove_clock,
        final(board).game_state.fullmove_number == old(board).game_state.fullmove_number,
    decreases depth,
{
    let ghost pos = board@;
    if depth <= 0 {
        proof {
            lemma_same_board(board, old(board));
        }
        return 1;
    }
    let mut nodes: u64 = 0;
    let ghost mut sum: int = 0;
    let move_list = mg.list_moves(board, MoveType::All);
    let ghost moves = pseudo_moves(pos, MoveType::All);
    let mut i: usize = 0;
    while i < move_list.count()
        invariant
            i <= move_list@.len(),
            parts(move_list@) == moves,
            moves == pseudo_moves(pos, MoveType::All),
            board.wf(),
            old(board).wf(),
            mg.wf(),
            pos.sound(),
            board@ == pos,
            pos == old(board)@,
            board.history@ == old(board).history@,
            board.game_state.halfmove_clock == old(board).game_state.halfmove_clock,
            board.game_state.fullmove_number == old(board).game_state.fullmove_number,
            depth > 0,
            old(board).history@.len() + depth <= MAX_MOVES,
            old(board).game_state.halfmove_clock + depth <= 255,
            old(board).game_state.fullmove_number + depth <= 255,
            0 <= sum,
            nodes == held64(sum),
            sum + perft_from(pos, i as int, depth as int) == perft_count(pos, depth as int),
        decreases move_list@.len() - i,
    {
        let move_data = move_list.get(i);
        let ghost f = move_data@;
        let ghost prior = board.game_state;
        let ghost past = board.history@;
        proof {
            assert(parts(move_list@)[i as int] == f);
            assert(moves.contains(f));
            lemma_perft_nonnegative(pos.made(f), 0, depth - 1);
        }
        if board.play(mg, move_data, Ghost(MoveType::All)) {
            let below = perft(board, mg, depth - 1);
            nodes = nodes.saturating_add(below);
            board.take_back(Ghost(pos), Ghost(prior), Ghost(move_data));
            proof {
                assert(board.history@ =~= past);
                sum = sum + perft_count(pos.made(f), depth - 1);
            }
        }
        i += 1;
    }
    proof {
        lemma_same_board(board, old(board));
    }
    nodes
}

} // verus!
