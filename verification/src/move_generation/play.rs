use vstd::prelude::*;
use super::generator::MoveGenerator;
use super::move_list::MoveList;
use super::moves::Move;
use super::moves::MoveType;
use super::rules::parts;
use super::rules::pseudo_moves;
use super::soundness::lemma_capture_takes;
use super::soundness::lemma_generated_admitted;
use super::soundness::lemma_made_sound;
use super::soundness::lemma_men_after;
use super::soundness::takes;
use crate::board_repr::board::Board;
use crate::board_repr::game_state::GameState;
use crate::board_repr::history::MAX_MOVES;
use crate::board_repr::make_move::record;
use crate::board_repr::position::lemma_king_exists;
use crate::board_repr::position::lemma_men_range;
use crate::board_repr::position::lemma_unmake_restores;
use crate::board_repr::position::men;
use crate::board_repr::position::Position;

verus! {

/// The two boards hold the same position in every form, with the same past.
pub open spec fn same_board(a: &Board, b: &Board) -> bool {
    &&& a@ == b@
    &&& a.bitboards@ == b.bitboards@
    &&& a.occupancy@ == b.occupancy@
    &&& a.history@ == b.history@
}

/// Two well-formed boards with the same men and the same state hold the
/// same position in every form.
pub proof fn lemma_same_board(a: &Board, b: &Board)
    requires
        a.wf(),
        b.wf(),
        a@ == b@,
        a.history@ == b.history@,
    ensures
        same_board(a, b),
{
    a.lemma_sets_of_men();
    b.lemma_sets_of_men();
    assert(a.bitboards@ =~= b.bitboards@);
    assert(a.occupancy@ =~= b.occupancy@);
}

/// A move that is made and then taken back leaves the board as it was: where
/// `made` is what `make_move` leaves of `start` after a legal move and
/// `back` is what `unmake_move` leaves of `made`, every set, the man on
/// every square and the record of the past are those of `start`, and the
/// state is the state of `start` with the move written into it.
pub proof fn lemma_make_unmake_restores(start: &Board, made: &Board, back: &Board, m: Move)
    requires
        start.wf(),
        start.piece_by_square@.len() == 64,
        start@.admits(m@),
        made.wf(),
        made@ == start@.made(m@),
        made.history@ == start.history@.push(record(start.game_state, m)),
        back.wf(),
        back@ == made@.unmade(made.history@.last()),
        back.game_state == made.history@.last(),
        back.history@ == made.history@.drop_last(),
    ensures
        back.bitboards@ == start.bitboards@,
        back.occupancy@ == start.occupancy@,
        back.piece_by_square@ == start.piece_by_square@,
        back.history@ == start.history@,
        back.game_state == record(start.game_state, m),
{
    lemma_unmake_restores(start@, record(start.game_state, m));
    assert(back.history@ =~= start.history@);
    lemma_same_board(back, start);
}

impl Board {
    /// Plays one of the generated moves of a sound position on the board
    /// and says whether it was legal.
    pub(crate) fn play(
        &mut self,
        mg: &MoveGenerator,
        move_data: Move,
        Ghost(move_type): Ghost<MoveType>,
    ) -> (legal: bool)
        requires
            old(self).wf(),
            mg.wf(),
            old(self)@.sound(),
            move_type != MoveType::Quite,
            pseudo_moves(old(self)@, move_type).contains(move_data@),
            old(self).history@.len() < MAX_MOVES,
            old(self).game_state.halfmove_clock < 255,
            old(self).game_state.fullmove_number < 255,
        ensures
            final(self).wf(),
            legal == old(self)@.is_legal(move_data@),
            old(self)@.admits(move_data@),
            move_type == MoveType::Capture ==> takes(move_data@),
            men(old(self)@.made(move_data@).pieces) == men(old(self)@.pieces) - if takes(
                move_data@,
            ) {
                1int
            } else {
                0int
            },
            0 <= men(old(self)@.made(move_data@).pieces) <= 64,
            legal ==> final(self)@ == old(self)@.made(move_data@) && final(self)@.sound() && final(self).history@ == old(self).history@.push(record(old(self).game_state, move_data)) && final(self).game_state.halfmove_clock <= old(self).game_state.halfmove_clock + 1 && final(self).game_state.fullmove_number <= old(self).game_state.fullmove_number + 1,
            !legal ==> same_board(final(self), old(self)) && final(self).game_state.halfmove_clock == old(self).game_state.halfmove_clock && final(self).game_state.fullmove_number == old(self).game_state.fullmove_number,
    {
        let ghost pos = self@;
        let ghost f = move_data@;
        proof {
            lemma_generated_admitted(pos, move_type, f);
            if move_type == MoveType::Capture {
                lemma_capture_takes(pos, f);
            }
            lemma_men_after(pos, f);
            lemma_men_range(pos.made(f).pieces);
            lemma_king_exists(pos.pieces, pos.active());
        }
        let legal = self.make_move(move_data, mg);
        proof {
            if legal {
                lemma_made_sound(pos, f);
            } else {
                lemma_same_board(self, old(self));
            }
        }
        legal
    }

    /// Takes back the move that `play` played, with the board as it was
    /// right after it.
    pub(crate) fn take_back(
        &mut self,
        Ghost(pos): Ghost<Position>,
        Ghost(prior): Ghost<GameState>,
        Ghost(m): Ghost<Move>,
    )
        requires
            old(self).wf(),
            pos.pieces.len() == 64,
            pos.admits(m@),
            prior.plain() == pos.state,
            old(self)@ == pos.made(m@),
            old(self).history@.len() > 0,
            old(self).history@.last() == record(prior, m),
        ensures
            final(self).wf(),
            final(self)@ == pos,
            final(self).history@ == old(self).history@.drop_last(),
            final(self).game_state == record(prior, m),
    {
        proof {
            lemma_unmake_restores(pos, record(prior, m));
        }
        self.unmake_move();
    }
}

impl MoveGenerator {
    /// The moves of the side to move on the board.
    pub(crate) fn list_moves(&self, board: &Board, move_type: MoveType) -> (r: MoveList)
        requires
            board.wf(),
            self.wf(),
            board@.sound(),
        ensures
            parts(r@) == pseudo_moves(board@, move_type),
    {
        let mut move_list = MoveList::new();
        proof {
            lemma_king_exists(board@.pieces, board@.active());
        }
        self.generate_moves(board, &mut move_list, move_type);
        assert(parts(move_list@) =~= pseudo_moves(board@, move_type));
        move_list
    }
}

} // verus!
