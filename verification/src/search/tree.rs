use vstd::prelude::*;
use crate::board_repr::position::lemma_men_range;
use crate::board_repr::position::men;
use crate::board_repr::position::Position;
use crate::evaluation::eval::score_of;
use crate::move_generation::moves::MoveParts;
use crate::move_generation::moves::MoveType;
use crate::move_generation::rules::pseudo_moves;
use crate::move_generation::soundness::lemma_capture_takes;
use crate::move_generation::soundness::lemma_generated_admitted;
use crate::move_generation::soundness::lemma_men_after;

verus! {

/// The score of a side that is mated on the spot; a mate further down the
/// tree scores higher by one for every ply.
pub const MATE: i16 = 30000;

/// What a search gives: the score, the move it found best at the root (if
/// any move raised the lower bound there), and the number of nodes it
/// counted.
pub struct Outcome {
    pub score: int,
    pub best: Option<MoveParts>,
    pub nodes: int,
}

/// The larger of two numbers.
pub open spec fn raised(alpha: int, score: int) -> int {
    if score > alpha {
        score
    } else {
        alpha
    }
}

/// The value of a sound position once only captures are looked at: the
/// static score is the least the side to move can have, and each legal
/// capture is tried in turn, with the window turned about for the other
/// side.
pub open spec fn quiesce(pos: Position, alpha: int, beta: int) -> int
    decreases men(pos.pieces), 1int, 0int,
    when pos.sound()
{
    let stand = score_of(pos.pieces);
    if stand >= beta {
        beta
    } else {
        quiesce_from(pos, 0, raised(alpha, stand), beta)
    }
}

/// The value that the captures of a sound position give from place `i` of
/// the list on, with `alpha` the best found so far: a score that reaches
/// `beta` ends the search with `beta`, and a score above `alpha` raises it.
/// The search ends because every capture leaves one man less on the board.
pub open spec fn quiesce_from(pos: Position, i: int, alpha: int, beta: int) -> int
    decreases men(pos.pieces), 0int, pseudo_moves(pos, MoveType::Capture).len() - i,
    when pos.sound()
{
    let moves = pseudo_moves(pos, MoveType::Capture);
    if i < 0 || i >= moves.len() {
        alpha
    } else if pos.is_legal(moves[i]) {
        proof {
            assert(moves.contains(moves[i]));
            lemma_generated_admitted(pos, MoveType::Capture, moves[i]);
            lemma_capture_takes(pos, moves[i]);
            lemma_men_after(pos, moves[i]);
            lemma_men_range(pos.made(moves[i]).pieces);
        }
        let score = -quiesce(pos.made(moves[i]), -beta, -alpha);
        if score >= beta {
            beta
        } else {
            quiesce_from(pos, i + 1, raised(alpha, score), beta)
        }
    } else {
        quiesce_from(pos, i + 1, alpha, beta)
    }
}

/// The outcome of a search of the given depth from a position that stands
/// `ply` plies below the root: at depth zero the value of the captures;
/// else every legal move is tried in turn with the window turned about, a
/// score that reaches `beta` ends the search with `beta`, and a score above
/// `alpha` raises it.
pub open spec fn negamax(pos: Position, alpha: int, beta: int, depth: int, ply: int) -> Outcome
    decreases depth, 1int, 0int,
{
    if depth <= 0 {
        Outcome { score: quiesce(pos, alpha, beta), best: None, nodes: 0 }
    } else {
        negamax_from(pos, 0, alpha, beta, depth, ply, false, None, 1)
    }
}

/// The outcome that the moves from place `i` of the list on give, where
/// `alpha` is the best score so far, `found` says whether a legal move was
/// met, `best` is the best move at the root so far and `nodes` the nodes
/// counted so far. With no legal move at all the score is that of a mate,
/// `ply - 30000`, where the king is in check, and zero where it is not.
pub open spec fn negamax_from(
    pos: Position,
    i: int,
    alpha: int,
    beta: int,
    depth: int,
    ply: int,
    found: bool,
    best: Option<MoveParts>,
    nodes: int,
) -> Outcome
    decreases depth, 0int, pseudo_moves(pos, MoveType::All).len() - i,
{
    let moves = pseudo_moves(pos, MoveType::All);
    if depth <= 0 || i < 0 || i >= moves.len() {
        Outcome {
            score: if found {
                alpha
            } else if pos.in_check() {
                ply - MATE
            } else {
                0
            },
            best: best,
            nodes: nodes,
        }
    } else if pos.is_legal(moves[i]) {
        let child = negamax(pos.made(moves[i]), -beta, -alpha, depth - 1, ply + 1);
        let score = -child.score;
        if score >= beta {
            Outcome { score: beta, best: best, nodes: nodes + child.nodes }
        } else {
            negamax_from(
                pos,
                i + 1,
                raised(alpha, score),
                beta,
                depth,
                ply,
                true,
                if score > alpha && ply == 0 {
                    Some(moves[i])
                } else {
                    best
                },
                nodes + child.nodes,
            )
        }
    } else {
        negamax_from(pos, i + 1, alpha, beta, depth, ply, found, best, nodes)
    }
}

/// Whether generation gives the move and it leaves the mover's king out of check.
pub open spec fn is_legal_move(pos: Position, f: MoveParts) -> bool {
    pseudo_moves(pos, MoveType::All).contains(f) && pos.is_legal(f)
}

/// Whether the side to move has no legal move.
pub open spec fn no_legal_move(pos: Position) -> bool {
    forall|i: int|
        0 <= i < pseudo_moves(pos, MoveType::All).len() ==> !pos.is_legal(
            #[trigger] pseudo_moves(pos, MoveType::All)[i],
        )
}

proof fn lemma_none_legal_from(
    pos: Position,
    i: int,
    alpha: int,
    beta: int,
    depth: int,
    ply: int,
    best: Option<MoveParts>,
    nodes: int,
)
    requires
        no_legal_move(pos),
        0 <= i,
    ensures
        negamax_from(pos, i, alpha, beta, depth, ply, false, best, nodes).score == if pos.in_check() {
            ply - MATE
        } else {
            0
        },
    decreases pseudo_moves(pos, MoveType::All).len() - i,
{
    let moves = pseudo_moves(pos, MoveType::All);
    if depth > 0 && i < moves.len() {
        assert(!pos.is_legal(moves[i]));
        lemma_none_legal_from(pos, i + 1, alpha, beta, depth, ply, best, nodes);
    }
}

/// Where the side to move has no legal move, a search of depth one or more
/// gives the score of a mate, `ply - 30000`, if its king is in check, and
/// zero if it is not; and the score of a mate is the higher the further
/// from the root the mate stands.
pub proof fn lemma_no_legal_move(pos: Position, alpha: int, beta: int, depth: int, ply: int)
    requires
        no_legal_move(pos),
        depth >= 1,
    ensures
        negamax(pos, alpha, beta, depth, ply).score == if pos.in_check() {
            ply - MATE
        } else {
            0
        },
        forall|later: int|
            ply < later && pos.in_check() ==> negamax(pos, alpha, beta, depth, ply).score
                < #[trigger] negamax(pos, alpha, beta, depth, later).score,
{
    lemma_none_legal_from(pos, 0, alpha, beta, depth, ply, None, 1);
    assert forall|later: int| ply < later && pos.in_check() implies negamax(
        pos,
        alpha,
        beta,
        depth,
        ply,
    ).score < #[trigger] negamax(pos, alpha, beta, depth, later).score by {
        lemma_none_legal_from(pos, 0, alpha, beta, depth, later, None, 1);
    }
}

proof fn lemma_best_from(
    pos: Position,
    i: int,
    alpha: int,
    beta: int,
    depth: int,
    found: bool,
    best: Option<MoveParts>,
    nodes: int,
)
    requires
        0 <= i,
        best matches Some(f) ==> is_legal_move(pos, f),
    ensures
        negamax_from(pos, i, alpha, beta, depth, 0, found, best, nodes).best matches Some(f)
            ==> is_legal_move(pos, f),
    decreases pseudo_moves(pos, MoveType::All).len() - i,
{
    let moves = pseudo_moves(pos, MoveType::All);
    if depth > 0 && i < moves.len() {
        if pos.is_legal(moves[i]) {
            let child = negamax(pos.made(moves[i]), -beta, -alpha, depth - 1, 1);
            let score = -child.score;
            if score < beta {
                assert(moves.contains(moves[i]));
                lemma_best_from(
                    pos,
                    i + 1,
                    raised(alpha, score),
                    beta,
                    depth,
                    true,
                    if score > alpha {
                        Some(moves[i])
                    } else {
                        best
                    },
                    nodes + child.nodes,
                );
            }
        } else {
            lemma_best_from(pos, i + 1, alpha, beta, depth, found, best, nodes);
        }
    }
}

/// The best move that a search from the root gives is one of the moves
/// that generation gives for the position, and it is legal.
pub proof fn lemma_best_is_legal(pos: Position, alpha: int, beta: int, depth: int)
    ensures
        negamax(pos, alpha, beta, depth, 0).best matches Some(f) ==> is_legal_move(pos, f),
{
    if depth > 0 {
        lemma_best_from(pos, 0, alpha, beta, depth, false, None, 1);
    }
}

} // verus!
