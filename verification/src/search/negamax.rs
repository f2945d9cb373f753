use vstd::prelude::*;
use super::tree::negamax;
use super::tree::negamax_from;
use super::tree::raised;
use super::tree::MATE;
use crate::board_repr::board::Board;
use crate::board_repr::history::MAX_MOVES;
use crate::board_repr::position::men;
use crate::move_generation::generator::MoveGenerator;
use crate::move_generation::moves::Move;
use crate::move_generation::moves::MoveParts;
use crate::move_generation::moves::MoveType;
use crate::move_generation::rules::parts;
use crate::move_generation::rules::pseudo_moves;
use crate::move_generation::play::lemma_same_board;
use crate::move_generation::play::same_board;
use crate::board_repr::position::lemma_king_exists;
use crate::board_repr::position::lemma_men_range;

verus! {

/// A search over one board: the board it plays on and takes back on, the
/// tables, the count of nodes, the distance from the root, and the best
/// move found at the root.
pub struct Search<'a> {
    pub board: &'a mut Board,
    pub mg: &'a MoveGenerator,
    pub nodes: u32,
    pub ply: u32,
    pub best_move: Option<Move>,
}

/// A count carried in 32 bits: what is left of it after 2^32 is taken off
/// as often as it fits.
pub open spec fn wrap32(x: int) -> int {
    x % 0x1_0000_0000
}

/// The board has room for a search of the given depth that starts `ply`
/// plies below the root.
pub open spec fn room_for(board: &Board, ply: int, depth: int) -> bool {
    let slack = depth + men(board.piece_by_square@);
    &&& board.history@.len() + slack <= MAX_MOVES
    &&& board.game_state.halfmove_clock + slack <= 255
    &&& board.game_state.fullmove_number + slack <= 255
    &&& ply + slack <= 32767
}

impl<'a> Search<'a> {
    /// There is room for a search of the given depth: for each ply of it,
    /// and for each man that can still be taken after it, the record of
    /// the past has a free place, the two counters of the game can go up by
    /// one, and the distance from the root stays below 2^15.
    pub open spec fn room(&self, depth: int) -> bool {
        room_for(self.board, self.ply as int, depth)
    }

    /// The search can start: board and tables are well-formed, the position
    /// is sound, and there is room for the depth.
    pub open spec fn ready(&self, depth: int) -> bool {
        &&& self.board.wf()
        &&& self.mg.wf()
        &&& self.board@.sound()
        &&& 0 <= depth
        &&& self.room(depth)
    }

    /// Whether there is room for a search of the given depth.
    pub fn has_room(&self, depth: i8) -> (r: bool)
        ensures
            r == self.room(depth as int),
    {
        let slack: i64 = depth as i64 + self.board.count_men() as i64;
        let past = self.board.history.count();
        if past > 2 * MAX_MOVES {
            return false;
        }
        past as i64 + slack <= MAX_MOVES as i64
            && self.board.game_state.halfmove_clock as i64 + slack <= 255
            && self.board.game_state.fullmove_number as i64 + slack <= 255 && self.ply as i64
            + slack <= 32767
    }

    /// Whether the search can start with the given depth.
    pub fn is_ready(&self, depth: i8) -> (r: bool)
        requires
            self.mg.wf(),
        ensures
            r == self.ready(depth as int),
    {
        self.board.is_well_formed() && self.board.is_sound(self.mg) && depth >= 0 && self.has_room(
            depth,
        )
    }

    pub fn new(board: &'a mut Board, mg: &'a MoveGenerator) -> (r: Self)
        ensures
            *r.board == *old(board),
            *final(r.board) == *final(board),
            r.mg == mg,
            r.nodes == 0,
            r.ply == 0,
            r.best_move.is_none(),
    {
        Self { board, mg, nodes: 0, ply: 0, best_move: None }
    }
}

/// A count that is carried in 32 bits and grows in two steps is the count
/// that grows by both at once.
pub proof fn lemma_wrap_add(a: int, b: int, c: int)
    ensures
        wrap32(wrap32(a + b) + c) == wrap32(a + b + c),
{
    vstd::arithmetic::div_mod::lemma_add_mod_noop(a + b, c, 0x1_0000_0000);
    vstd::arithmetic::div_mod::lemma_mod_twice(a + b, 0x1_0000_0000);
    vstd::arithmetic::div_mod::lemma_add_mod_noop(wrap32(a + b), c, 0x1_0000_0000);
}

impl<'a> Search<'a> {
    /// Plays one generated move, searches what follows one ply less deep
    /// with the window turned about, and takes the move back. Gives the
    /// score of the move for the side that made it, or nothing where the
    /// move is illegal.
    fn try_move(&mut self, move_data: Move, alpha: i16, beta: i16, depth: i8) -> (r: Option<i16>)
        requires
            old(self).ready(depth as int),
            1 <= depth,
            -32767 <= alpha <= 32767,
            -32767 <= beta <= 32767,
            pseudo_moves(old(self).board@, MoveType::All).contains(move_data@),
        ensures
            final(self).board.wf(),
            final(self).board@ == old(self).board@,
            final(self).board.history@ == old(self).board.history@,
            final(self).board.game_state.halfmove_clock == old(
                self).board.game_state.halfmove_clock,
            final(self).board.game_state.fullmove_number == old(
                self).board.game_state.fullmove_number,
            final(self).mg == old(self).mg,
            *final(final(self).board) == *final(old(self).board),
            final(self).ply == old(self).ply,
            final(self).best_move == old(self).best_move,
            r.is_some() == old(self).board@.is_legal(move_data@),
            r.is_none() ==> final(self).nodes == old(self).nodes,
            r matches Some(score) ==> {
                let child = negamax(
                    old(self).board@.made(move_data@),
                    -beta as int,
                    -alpha as int,
                    depth - 1,
                    old(self).ply + 1,
                );
                &&& score == -child.score
                &&& -32767 <= score <= 32767
                &&& final(self).nodes == wrap32(old(self).nodes + child.nodes)
            },
        decreases depth, 0int,
    {
        let ghost pos = self.board@;
        let ghost prior = self.board.game_state;
        let ghost past = self.board.history@;
        proof {
            lemma_men_range(pos.pieces);
        }
        if !self.board.play(self.mg, move_data, Ghost(MoveType::All)) {
            return None;
        }
        self.ply += 1;
        let score = -self.alpha_beta(-beta, -alpha, depth - 1);
        self.ply -= 1;
        self.board.take_back(Ghost(pos), Ghost(prior), Ghost(move_data));
        proof {
            assert(self.board.history@ =~= past);
        }
        Some(score)
    }

    /// Searches the position to the given depth and gives its score inside
    /// the window from `alpha` to `beta`. Called at the root (`ply` zero),
    /// it leaves in `best_move` the last move that raised the lower bound,
    /// if any did. The count of nodes goes up by the nodes met, and the
    /// board comes back as it was.
    pub fn alpha_beta(&mut self, alpha: i16, beta: i16, depth: i8) -> (score: i16)
        requires
            old(self).ready(depth as int),
            -32767 <= alpha <= 32767,
            -32767 <= beta <= 32767,
        ensures
            score == negamax(
                old(self).board@,
                alpha as int,
                beta as int,
                depth as int,
                old(self).ply as int,
            ).score,
            -32767 <= score <= 32767,
            final(self).board.wf(),
            same_board(final(self).board, old(self).board),
            final(self).board.game_state.halfmove_clock == old(
                self).board.game_state.halfmove_clock,
            final(self).board.game_state.fullmove_number == old(
                self).board.game_state.fullmove_number,
            final(self).mg == old(self).mg,
            *final(final(self).board) == *final(old(self).board),
            final(self).ply == old(self).ply,
            final(self).nodes == wrap32(
                old(self).nodes + negamax(
                    old(self).board@,
                    alpha as int,
                    beta as int,
                    depth as int,
                    old(self).ply as int,
                ).nodes,
            ),
            old(self).ply != 0 ==> final(self).best_move == old(self).best_move,
            old(self).ply == 0 ==> match negamax(
                old(self).board@,
                alpha as int,
                beta as int,
                depth as int,
                0,
            ).best {
                None => final(self).best_move == old(self).best_move,
                Some(f) => final(self).best_move.is_some() && final(self).best_move.unwrap()@ == f,
            },
        decreases depth, 1int,
    {
        let ghost pos = self.board@;
        let ghost target = negamax(
            pos,
            alpha as int,
            beta as int,
            depth as int,
            self.ply as int,
        );
        if depth == 0 {
            return self.quiescence(alpha, beta);
        }
        let mut lower = alpha;
        let mut found = false;
        let ghost mut best: Option<MoveParts> = None;
        let ghost mut count: int = 1;
        proof {
            lemma_king_exists(pos.pieces, pos.active());
            lemma_men_range(pos.pieces);
        }
        let is_king_in_check = self.board.is_king_in_check(self.mg);
        self.nodes = self.nodes.wrapping_add(1);
        let move_list = self.mg.list_moves(self.board, MoveType::All);
        let ghost moves = pseudo_moves(pos, MoveType::All);
        let mut i: usize = 0;
        while i < move_list.count()
            invariant
                i <= move_list@.len(),
                parts(move_list@) == moves,
                moves == pseudo_moves(pos, MoveType::All),
                self.board.wf(),
                old(self).board.wf(),
                self.mg.wf(),
                pos.sound(),
                0 <= men(pos.pieces) <= 64,
                self.board@ == pos,
                pos == old(self).board@,
                self.board.history@ == old(self).board.history@,
                self.board.game_state.halfmove_clock == old(
                    self).board.game_state.halfmove_clock,
                self.board.game_state.fullmove_number == old(
                    self).board.game_state.fullmove_number,
                self.mg == old(self).mg,
                *final(self.board) == *final(old(self).board),
                self.ply == old(self).ply,
                self.nodes == wrap32(old(self).nodes + count),
                self.ply != 0 ==> self.best_move == old(self).best_move && best.is_none(),
                self.ply == 0 ==> match best {
                    None => self.best_move == old(self).best_move,
                    Some(f) => self.best_move.is_some() && self.best_move.unwrap()@ == f,
                },
                1 <= depth,
                old(self).room(depth as int),
                is_king_in_check == pos.in_check(),
                -32767 <= lower <= 32767,
                -32767 <= beta <= 32767,
                target == negamax(
                    pos,
                    alpha as int,
                    beta as int,
                    depth as int,
                    old(self).ply as int,
                ),
                negamax_from(
                    pos,
                    i as int,
                    lower as int,
                    beta as int,
                    depth as int,
                    self.ply as int,
                    found,
                    best,
                    count,
                ) == target,
            decreases move_list@.len() - i,
        {
            let move_data = move_list.get(i);
            let ghost f = move_data@;
            proof {
                assert(parts(move_list@)[i as int] == f);
                assert(moves.contains(f));
            }
            let ghost child = negamax(
                pos.made(f),
                -beta as int,
                -lower as int,
                depth - 1,
                self.ply + 1,
            );
            let tried = self.try_move(move_data, lower, beta, depth);
            if tried.is_some() {
                let score = tried.unwrap();
                found = true;
                proof {
                    lemma_wrap_add(old(self).nodes as int, count, child.nodes);
                    count = count + child.nodes;
                }
                if score >= beta {
                    proof {
                        lemma_same_board(self.board, old(self).board);
                    }
                    return beta;
                }
                if score > lower {
                    lower = score;
                    if self.ply == 0 {
                        self.best_move = Some(move_data);
                        proof {
                            best = Some(f);
                        }
                    }
                }
            }
            i += 1;
        }
        proof {
            lemma_same_board(self.board, old(self).board);
        }
        if !found {
            if is_king_in_check {
                return self.ply as i16 - MATE;
            }
            return 0;
        }
        lower
    }
}

/// What a search from the root leaves: where the board was ready for the
/// depth, the board is as it was and the move given is the best move of
/// the search in the window from -32000 to 32000, if it found one; where
/// the board was not ready, nothing was searched and nothing is given.
pub open spec fn searched(before: &Board, after: &Board, depth: int, best: Option<Move>) -> bool {
    if before.wf() && before@.sound() && 0 <= depth && room_for(before, 0, depth) {
        &&& after.wf()
        &&& same_board(after, before)
        &&& match negamax(before@, -32000, 32000, depth, 0).best {
            None => best.is_none(),
            Some(f) => best.is_some() && best.unwrap()@ == f,
        }
    } else {
        best.is_none() && *after == *before
    }
}

impl<'a> Search<'a> {
    /// Searches from the root to the given depth, in the window from
    /// -32000 to 32000, if the search is ready for it, and says whether it
    /// was.
    pub fn run(&mut self, depth: i8) -> (ran: bool)
        requires
            old(self).mg.wf(),
            old(self).ply == 0,
        ensures
            ran == old(self).ready(depth as int),
            final(self).mg == old(self).mg,
            *final(final(self).board) == *final(old(self).board),
            final(self).ply == 0,
            !ran ==> *final(self).board == *old(self).board && final(self).best_move == old(
                self).best_move && final(self).nodes == old(self).nodes,
            ran ==> final(self).board.wf() && same_board(final(self).board, old(self).board)
                && final(self).nodes == wrap32(
                old(self).nodes + negamax(old(self).board@, -32000, 32000, depth as int, 0).nodes,
            ) && match negamax(old(self).board@, -32000, 32000, depth as int, 0).best {
                None => final(self).best_move == old(self).best_move,
                Some(f) => final(self).best_move.is_some() && final(self).best_move.unwrap()@ == f,
            },
    {
        if !self.is_ready(depth) {
            return false;
        }
        self.alpha_beta(-32000, 32000, depth);
        true
    }
}

/// Searches the position on the board to the given depth, in the window
/// from -32000 to 32000, and gives the best move found, if the board is
/// ready for such a search.
pub fn search_root(board: &mut Board, mg: &MoveGenerator, depth: i8) -> (r: Option<Move>)
    requires
        mg.wf(),
    ensures
        searched(old(board), final(board), depth as int, r),
{
    let mut search = Search::new(board, mg);
    let ran = search.run(depth);
    let best = search.best_move;
    best
}

} // verus!
