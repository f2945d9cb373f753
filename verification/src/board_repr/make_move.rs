use vstd::prelude::*;
use super::bit_board::bit;
use super::bit_board::lemma_bit_ops;
use super::bit_board::lemma_bit_single;
use super::bit_board::BitBoard;
use super::board::Board;
use super::geometry::on_board;
use super::piece::Color;
use super::piece::Piece;
use super::game_state::GameState;
use super::history::MAX_MOVES;
use super::position::flip8;
use super::position::lemma_unmake_restores;
use super::position::rook_from;
use super::position::rook_to;
use super::square::Square;
use crate::move_generation::generator::MoveGenerator;
use crate::move_generation::moves::Move;

verus! {

impl Board {
    /// Puts a man on a square, in all three forms of the position at once.
    pub fn set_piece(&mut self, square: Square, piece: Piece)
        requires
            piece != Piece::Empty,
        ensures
            final(self).bitboards@ == old(self).bitboards@.update(
                piece.spec_value() as int,
                BitBoard(
                    old(self).bitboards[piece.spec_value() as int].0 | (1u64 << (
                    square.ord() as u64)),
                ),
            ),
            final(self).piece_by_square@ == old(self).piece_by_square@.update(square.ord(), piece),
            final(self).occupancy@ == old(self).occupancy@.update(
                piece.spec_color().ord(),
                BitBoard(
                    old(self).occupancy[piece.spec_color().ord()].0 | (1u64 << (
                    square.ord() as u64)),
                ),
            ),
            final(self).game_state == old(self).game_state,
            final(self).history == old(self).history,
            old(self).wf() && (old(self).piece_by_square[square.ord()] == Piece::Empty || old(self).piece_by_square[square.ord()] == piece) ==> final(self).wf(),
    {
        let square_bb = square.get_bitboard();
        let v = piece.value() as usize;
        let c = piece.color().index();
        proof {
            lemma_bit_ops(self.bitboards[v as int].0, square_bb.0);
            lemma_bit_ops(self.occupancy[c as int].0, square_bb.0);
            lemma_bit_single(square.ord());
            piece.lemma_value_at();
        }
        self.bitboards[v] = self.bitboards[v].union(square_bb);
        self.piece_by_square[square.index() as usize] = piece;
        self.occupancy[c] = self.occupancy[c].union(square_bb);
        proof {
            assert(final(self).bitboards@ =~= old(self).bitboards@.update(
                piece.spec_value() as int,
                BitBoard(
                    old(self).bitboards[piece.spec_value() as int].0 | (1u64 << (
                    square.ord() as u64)),
                ),
            ));
            assert(final(self).occupancy@ =~= old(self).occupancy@.update(
                piece.spec_color().ord(),
                BitBoard(
                    old(self).occupancy[piece.spec_color().ord()].0 | (1u64 << (
                    square.ord() as u64)),
                ),
            ));
            assert(final(self).piece_by_square@ =~= old(self).piece_by_square@.update(
                square.ord(),
                piece,
            ));
            if old(self).wf() && (old(self).piece_by_square[square.ord()] == Piece::Empty || old(self).piece_by_square[square.ord()] == piece) {
                assert forall|k: int, i: int| 0 <= k < 12 && on_board(i) implies #[trigger] bit(
                    self.bitboards[k].0,
                    i,
                ) == (self.piece_by_square[i] == Piece::at(k)) by {
                    assert(bit(old(self).bitboards[k].0, i) == (old(self).piece_by_square[i]
                        == Piece::at(k)));
                }
                assert forall|i: int| on_board(i) implies #[trigger] bit(self.occupancy[0].0, i)
                    == self.piece_by_square[i].belongs_to(Color::White) by {
                    assert(bit(old(self).occupancy[0].0, i) == old(self).piece_by_square[i].belongs_to(Color::White));
                }
                assert forall|i: int| on_board(i) implies #[trigger] bit(self.occupancy[1].0, i)
                    == self.piece_by_square[i].belongs_to(Color::Black) by {
                    assert(bit(old(self).occupancy[1].0, i) == old(self).piece_by_square[i].belongs_to(Color::Black));
                }
            }
        }
    }

    /// Takes a man off a square, in all three forms of the position at once.
    pub fn remove_piece(&mut self, square: Square, piece: Piece)
        requires
            piece != Piece::Empty,
        ensures
            final(self).bitboards@ == old(self).bitboards@.update(
                piece.spec_value() as int,
                BitBoard(
                    old(self).bitboards[piece.spec_value() as int].0 & !(1u64 << (
                    square.ord() as u64)),
                ),
            ),
            final(self).piece_by_square@ == old(self).piece_by_square@.update(
                square.ord(),
                Piece::Empty,
            ),
            final(self).occupancy@ == old(self).occupancy@.update(
                piece.spec_color().ord(),
                BitBoard(
                    old(self).occupancy[piece.spec_color().ord()].0 & !(1u64 << (
                    square.ord() as u64)),
                ),
            ),
            final(self).game_state == old(self).game_state,
            final(self).history == old(self).history,
            old(self).wf() && (old(self).piece_by_square[square.ord()] == Piece::Empty || old(self).piece_by_square[square.ord()] == piece) ==> final(self).wf(),
    {
        let square_bb = square.get_bitboard();
        let v = piece.value() as usize;
        let c = piece.color().index();
        proof {
            lemma_bit_ops(self.bitboards[v as int].0, square_bb.0);
            lemma_bit_ops(self.occupancy[c as int].0, square_bb.0);
            lemma_bit_single(square.ord());
            piece.lemma_value_at();
        }
        self.bitboards[v] = self.bitboards[v].intersection(square_bb.complement());
        self.piece_by_square[square.index() as usize] = Piece::Empty;
        self.occupancy[c] = self.occupancy[c].intersection(square_bb.complement());
        proof {
            assert(final(self).bitboards@ =~= old(self).bitboards@.update(
                piece.spec_value() as int,
                BitBoard(
                    old(self).bitboards[piece.spec_value() as int].0 & !(1u64 << (
                    square.ord() as u64)),
                ),
            ));
            assert(final(self).occupancy@ =~= old(self).occupancy@.update(
                piece.spec_color().ord(),
                BitBoard(
                    old(self).occupancy[piece.spec_color().ord()].0 & !(1u64 << (
                    square.ord() as u64)),
                ),
            ));
            assert(final(self).piece_by_square@ =~= old(self).piece_by_square@.update(
                square.ord(),
                Piece::Empty,
            ));
            if old(self).wf() && (old(self).piece_by_square[square.ord()] == Piece::Empty || old(self).piece_by_square[square.ord()] == piece) {
                assert forall|k: int, i: int| 0 <= k < 12 && on_board(i) implies #[trigger] bit(
                    self.bitboards[k].0,
                    i,
                ) == (self.piece_by_square[i] == Piece::at(k)) by {
                    assert(bit(old(self).bitboards[k].0, i) == (old(self).piece_by_square[i]
                        == Piece::at(k)));
                }
                assert forall|i: int| on_board(i) implies #[trigger] bit(self.occupancy[0].0, i)
                    == self.piece_by_square[i].belongs_to(Color::White) by {
                    assert(bit(old(self).occupancy[0].0, i) == old(self).piece_by_square[i].belongs_to(Color::White));
                }
                assert forall|i: int| on_board(i) implies #[trigger] bit(self.occupancy[1].0, i)
                    == self.piece_by_square[i].belongs_to(Color::Black) by {
                    assert(bit(old(self).occupancy[1].0, i) == old(self).piece_by_square[i].belongs_to(Color::Black));
                }
            }
        }
    }

    /// Moves a man from one square to another: off the first, onto the second.
    pub fn move_piece(&mut self, source_square: Square, target_square: Square, piece: Piece)
        requires
            piece != Piece::Empty,
        ensures
            final(self).piece_by_square@ == old(self).piece_by_square@.update(
                source_square.ord(),
                Piece::Empty,
            ).update(target_square.ord(), piece),
            final(self).bitboards@ == old(self).bitboards@.update(
                piece.spec_value() as int,
                BitBoard(
                    (old(self).bitboards[piece.spec_value() as int].0 & !(1u64 << (
                    source_square.ord() as u64))) | (1u64 << (target_square.ord() as u64)),
                ),
            ),
            final(self).occupancy@ == old(self).occupancy@.update(
                piece.spec_color().ord(),
                BitBoard(
                    (old(self).occupancy[piece.spec_color().ord()].0 & !(1u64 << (
                    source_square.ord() as u64))) | (1u64 << (target_square.ord() as u64)),
                ),
            ),
            final(self).game_state == old(self).game_state,
            final(self).history == old(self).history,
            old(self).wf() && old(self).piece_by_square[source_square.ord()] == piece && (old(self).piece_by_square[target_square.ord()] == Piece::Empty || target_square
                == source_square) ==> final(self).wf(),
    {
        self.remove_piece(source_square, piece);
        self.set_piece(target_square, piece);
    }

    /// Takes back what `move_piece` did with the same arguments: off the
    /// target, onto the source.
    pub fn reverse_move(&mut self, source_square: Square, target_square: Square, piece: Piece)
        requires
            piece != Piece::Empty,
        ensures
            final(self).piece_by_square@ == old(self).piece_by_square@.update(
                target_square.ord(),
                Piece::Empty,
            ).update(source_square.ord(), piece),
            final(self).bitboards@ == old(self).bitboards@.update(
                piece.spec_value() as int,
                BitBoard(
                    (old(self).bitboards[piece.spec_value() as int].0 & !(1u64 << (
                    target_square.ord() as u64))) | (1u64 << (source_square.ord() as u64)),
                ),
            ),
            final(self).occupancy@ == old(self).occupancy@.update(
                piece.spec_color().ord(),
                BitBoard(
                    (old(self).occupancy[piece.spec_color().ord()].0 & !(1u64 << (
                    target_square.ord() as u64))) | (1u64 << (source_square.ord() as u64)),
                ),
            ),
            final(self).game_state == old(self).game_state,
            final(self).history == old(self).history,
            old(self).wf() && old(self).piece_by_square[target_square.ord()] == piece && (old(self).piece_by_square[source_square.ord()] == Piece::Empty || target_square
                == source_square) ==> final(self).wf(),
    {
        self.remove_piece(target_square, piece);
        self.set_piece(source_square, piece);
    }
}

/// The state as it is put on record when `m` is played from it.
pub open spec fn record(state: GameState, m: Move) -> GameState {
    GameState { next_move: m, ..state }
}

/// The neighbour of a square in the next or the previous row.
fn behind(square: Square) -> (r: Square)
    ensures
        r.ord() == flip8(square.ord()),
        r == Square::at(flip8(square.ord())),
{
    let i = square.index();
    if (i / 8) % 2 == 0 {
        Square::get_by_index(i + 8)
    } else {
        Square::get_by_index(i - 8)
    }
}

impl Board {
    /// Moves the rook that belongs to a castling move of the king to
    /// `target`, or back where `back` is set.
    fn castle_rook(&mut self, target: Square, rook: Piece, back: bool)
        requires
            rook != Piece::Empty,
            crate::board_repr::position::is_castle_target(target),
        ensures
            final(self).piece_by_square@ == if back {
                old(self).piece_by_square@.update(rook_to(target).ord(), Piece::Empty).update(
                    rook_from(target).ord(),
                    rook,
                )
            } else {
                old(self).piece_by_square@.update(rook_from(target).ord(), Piece::Empty).update(
                    rook_to(target).ord(),
                    rook,
                )
            },
            final(self).game_state == old(self).game_state,
            final(self).history == old(self).history,
            old(self).wf() && old(self).piece_by_square[if back {
                rook_to(target).ord()
            } else {
                rook_from(target).ord()
            }] == rook && old(self).piece_by_square[if back {
                rook_from(target).ord()
            } else {
                rook_to(target).ord()
            }] == Piece::Empty ==> final(self).wf(),
    {
        let (from, to) = match target {
            Square::G1 => (Square::H1, Square::F1),
            Square::C1 => (Square::A1, Square::D1),
            Square::G8 => (Square::H8, Square::F8),
            _ => (Square::A8, Square::D8),
        };
        if back {
            self.reverse_move(from, to, rook);
        } else {
            self.move_piece(from, to, rook);
        }
    }

    /// Moves the men as the move says: takes what it takes, moves or
    /// promotes the mover, takes the pawn passed, and moves the castling rook.
    fn relocate(&mut self, move_data: Move)
        requires
            old(self).wf(),
            old(self)@.admits(move_data@),
        ensures
            final(self).wf(),
            final(self).piece_by_square@ == old(self)@.pieces_after(move_data@),
            final(self).game_state == old(self).game_state,
            final(self).history == old(self).history,
    {
        let ghost pos = self@;
        let ghost f = move_data@;
        let source_square = move_data.source_square();
        let target_square = move_data.target_square();
        let piece = move_data.piece();
        let captured_piece = move_data.captured_piece();
        let promoted_piece = move_data.promoted_piece();
        let mover = self.game_state.active_color;
        if !captured_piece.is_none() {
            self.remove_piece(target_square, captured_piece);
        }
        if !piece.is_pawn() {
            self.move_piece(source_square, target_square, piece);
        } else {
            self.remove_piece(source_square, piece);
            self.set_piece(
                target_square,
                if !promoted_piece.is_none() {
                    promoted_piece
                } else {
                    piece
                },
            );
            if move_data.en_passant() {
                self.remove_piece(behind(target_square), piece.to_color(mover.opposite()));
            }
        }
        if move_data.castling() {
            self.castle_rook(target_square, Piece::WhiteRook.to_color(mover), false);
        }
        proof {
            assert(self.piece_by_square@ =~= pos.pieces_after(f));
        }
    }

    /// Brings the clock, the square to take on in passing and the castling
    /// rights to what they are after the move.
    fn advance(&mut self, move_data: Move)
        requires
            old(self).game_state.halfmove_clock < 255,
        ensures
            final(self).game_state == (GameState {
                active_color: old(self).game_state.active_color,
                fullmove_number: old(self).game_state.fullmove_number,
                next_move: old(self).game_state.next_move,
                ..old(self)@.state_after(move_data@)
            }),
            final(self).piece_by_square == old(self).piece_by_square,
            final(self).bitboards == old(self).bitboards,
            final(self).occupancy == old(self).occupancy,
            final(self).history == old(self).history,
    {
        let piece = move_data.piece();
        let captured_piece = move_data.captured_piece();
        self.game_state.halfmove_clock += 1;
        if self.game_state.en_passant_target.is_some() {
            self.game_state.en_passant_target = None;
        }
        if !captured_piece.is_none() {
            self.game_state.halfmove_clock = 0;
            if captured_piece.is_rook() {
                self.game_state.castle_settings.set_by_square(move_data.target_square());
            }
        }
        if piece.is_pawn() && move_data.double_push() {
            self.game_state.en_passant_target = Some(behind(move_data.target_square()));
        }
        if piece.is_king() || piece.is_rook() {
            self.game_state.castle_settings.set_by_square(move_data.source_square());
        }
    }

    /// Plays a move and says whether it was legal, that is, whether it
    /// leaves the mover's king out of check. A legal move stays played, with
    /// the state it was played from on record; an illegal one is taken back
    /// before the call returns, and leaves of itself only its name in the
    /// current state.
    pub fn make_move(&mut self, move_data: Move, mg: &MoveGenerator) -> (legal: bool)
        requires
            old(self).wf(),
            mg.wf(),
            old(self)@.admits(move_data@),
            old(self).history@.len() < MAX_MOVES,
            old(self).game_state.halfmove_clock < 255,
            old(self).game_state.active_color == Color::Black ==> old(
                self).game_state.fullmove_number < 255,
            exists|i: int|
                on_board(i) && #[trigger] old(self).piece_by_square[i]
                    == Piece::WhiteKing.spec_to_color(old(self).game_state.active_color),
        ensures
            final(self).wf(),
            legal == old(self)@.is_legal(move_data@),
            legal ==> final(self)@ == old(self)@.made(move_data@) && final(self).history@ == old(
                self).history@.push(record(old(self).game_state, move_data)) && final(
                self).game_state.next_move == old(self).game_state.next_move,
            !legal ==> final(self).piece_by_square == old(self).piece_by_square && final(
                self).bitboards == old(self).bitboards && final(self).occupancy == old(
                self).occupancy && final(self).game_state == record(
                old(self).game_state,
                move_data,
            ) && final(self).history@ == old(self).history@,
    {
        let ghost pos = self@;
        let ghost f = move_data@;
        let mut game_state = self.game_state;
        game_state.next_move = move_data;
        self.history.push(game_state);
        let mover = self.game_state.active_color;

        self.relocate(move_data);
        self.advance(move_data);
        proof {
            let king = Piece::WhiteKing.spec_to_color(mover);
            let i = choose|i: int| on_board(i) && #[trigger] pos.pieces[i] == king;
            f.source.lemma_at_ord();
            f.target.lemma_at_ord();
            if f.piece == king {
                assert(self.piece_by_square[f.target.ord()] == king);
            } else {
                assert(self.piece_by_square[i] == king);
            }
        }
        let is_legal = !self.is_king_in_check(mg);

        self.game_state.active_color = mover.opposite();
        if self.game_state.active_color == Color::White {
            self.game_state.fullmove_number += 1;
        }
        proof {
            assert(self.game_state.plain() == pos.state_after(f));
            assert(self@ == pos.made(f));
        }
        if !is_legal {
            proof {
                lemma_unmake_restores(pos, game_state);
            }
            self.unmake_move();
            proof {
                old(self).lemma_sets_of_men();
                self.lemma_sets_of_men();
                assert(self.piece_by_square@ =~= old(self).piece_by_square@);
                assert(self.bitboards@ =~= old(self).bitboards@);
                assert(self.occupancy@ =~= old(self).occupancy@);
            }
        }
        is_legal
    }

    /// Takes back the last move played: the state on top of the record
    /// becomes the current state again, and the men go back where they were.
    pub fn unmake_move(&mut self)
        requires
            old(self).wf(),
            old(self).history@.len() > 0,
            old(self)@.undoable(old(self).history@.last()),
        ensures
            final(self).wf(),
            final(self)@ == old(self)@.unmade(old(self).history@.last()),
            final(self).game_state == old(self).history@.last(),
            final(self).history@ == old(self).history@.drop_last(),
    {
        let ghost pos = self@;
        let ghost before = self.history@.last();
        self.game_state = self.history.pop();
        let move_data = self.game_state.next_move;

        let source_square = move_data.source_square();
        let target_square = move_data.target_square();
        let piece = move_data.piece();
        let captured_piece = move_data.captured_piece();
        let promoted_piece = move_data.promoted_piece();
        let en_passant = move_data.en_passant();
        let castling = move_data.castling();
        let en_passant_square = behind(target_square);
        let mover = self.game_state.active_color;

        if promoted_piece.is_none() {
            self.reverse_move(source_square, target_square, piece);
        } else {
            self.remove_piece(target_square, promoted_piece);
            self.set_piece(source_square, Piece::WhitePawn.to_color(mover));
        }
        if castling {
            let rook = Piece::WhiteRook.to_color(mover);
            self.castle_rook(target_square, rook, true);
        }
        if !captured_piece.is_none() {
            self.set_piece(target_square, captured_piece);
        }
        if en_passant {
            self.set_piece(en_passant_square, Piece::WhitePawn.to_color(mover.opposite()));
        }
        proof {
            assert(self.piece_by_square@ =~= pos.pieces_before(before));
        }
    }
}

} // verus!
