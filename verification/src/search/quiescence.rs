use vstd::prelude::*;
use crate::move_generation::play::lemma_same_board;
use crate::move_generation::play::same_board;
use super::negamax::Search;
use super::tree::quiesce;
use super::tree::quiesce_from;
use crate::board_repr::position::lemma_men_range;
use crate::board_repr::position::lemma_sound_has_men;
use crate::board_repr::position::men;
use crate::evaluation::eval::evaluate;
use crate::move_generation::moves::MoveType;
use crate::move_generation::rules::parts;
use crate::move_generation::rules::pseudo_moves;

verus! {

impl<'a> Search<'a> {
    /// The value of the position once only captures are looked at. The
    /// board comes back as it was.
    pub fn quiescence(&mut self, alpha: i16, beta: i16) -> (score: i16)
        requires
            old(self).ready(0),
            -32767 <= alpha <= 32767,
            -32767 <= beta <= 32767,
        ensures
            score == quiesce(old(self).board@, alpha as int, beta as int),
            -32767 <= score <= 32767,
            final(self).board.wf(),
            same_board(final(self).board, old(self).board),
            final(self).board.game_state.halfmove_clock == old(
                self).board.game_state.halfmove_clock,
            final(self).board.game_state.fullmove_number == old(
                self).board.game_state.fullmove_number,
            final(self).mg == old(self).mg,
            *final(final(self).board) == *final(old(self).board),
            final(self).nodes == old(self).nodes,
            final(self).ply == old(self).ply,
            final(self).best_move == old(self).best_move,
        decreases men(old(self).board.piece_by_square@),
    {
        let ghost pos = self.board@;
        let ghost target = quiesce(pos, alpha as int, beta as int);
        let mut lower = alpha;
        let eval_score = evaluate(self.board);
        if eval_score >= beta {
            proof {
                lemma_same_board(self.board, old(self).board);
            }
            return beta;
        }
        if eval_score > lower {
            lower = eval_score;
        }
        let move_list = self.mg.list_moves(self.board, MoveType::Capture);
        let ghost moves = pseudo_moves(pos, MoveType::Capture);
        proof {
            lemma_sound_has_men(pos);
        }
        let mut i: usize = 0;
        while i < move_list.count()
            invariant
                i <= move_list@.len(),
                parts(move_list@) == moves,
                moves == pseudo_moves(pos, MoveType::Capture),
                self.board.wf(),
                old(self).board.wf(),
                self.mg.wf(),
                pos.sound(),
                1 <= men(pos.pieces) <= 64,
                self.board@ == pos,
                pos == old(self).board@,
                self.board.history@ == old(self).board.history@,
                self.board.game_state.halfmove_clock == old(
                    self).board.game_state.halfmove_clock,
                self.board.game_state.fullmove_number == old(
                    self).board.game_state.fullmove_number,
                self.mg == old(self).mg,
                *final(self.board) == *final(old(self).board),
                self.nodes == old(self).nodes,
                self.ply == old(self).ply,
                self.best_move == old(self).best_move,
                old(self).room(0),
                -32767 <= lower <= 32767,
                -32767 <= beta <= 32767,
                target == quiesce(pos, alpha as int, beta as int),
                quiesce_from(pos, i as int, lower as int, beta as int) == target,
            decreases move_list@.len() - i,
        {
            let move_data = move_list.get(i);
            let ghost f = move_data@;
            let ghost prior = self.board.game_state;
            let ghost past = self.board.history@;
            proof {
                assert(parts(move_list@)[i as int] == f);
                assert(moves.contains(f));
                lemma_men_range(pos.pieces);
            }
            let is_legal = self.board.play(self.mg, move_data, Ghost(MoveType::Capture));
            if is_legal {
                self.ply += 1;
                let score = -self.quiescence(-beta, -lower);
                self.ply -= 1;
                self.board.take_back(Ghost(pos), Ghost(prior), Ghost(move_data));
                proof {
                    assert(self.board.history@ =~= past);
                }
                if score >= beta {
                    proof {
                        lemma_same_board(self.board, old(self).board);
                    }
                    return beta;
                }
                if score > lower {
                    lower = score;
                }
            }
            i += 1;
        }
        proof {
            lemma_same_board(self.board, old(self).board);
        }
        lower
    }
}

} // verus!
