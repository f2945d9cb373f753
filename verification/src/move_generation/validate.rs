use vstd::prelude::*;
use super::generator::MoveGenerator;
use super::soundness::lemma_king_square;
use crate::board_repr::bit_board::bit;
use crate::board_repr::bit_board::lemma_bit_zero;
use crate::board_repr::board::Board;
use crate::board_repr::geometry::on_board;
use crate::board_repr::piece::Color;
use crate::board_repr::piece::Piece;
use crate::board_repr::position::has_one_king;
use crate::board_repr::position::king_square;
use crate::board_repr::position::lemma_placement_bits;
use crate::board_repr::position::men;
use crate::board_repr::position::men_below;
use crate::board_repr::square::Square;

verus! {

impl Board {
    /// The number of men on the board.
    pub fn count_men(&self) -> (r: u8)
        ensures
            r == men(self.piece_by_square@),
            r <= 64,
    {
        let mut n: u8 = 0;
        let mut i: usize = 0;
        while i < 64
            invariant
                i <= 64,
                n == men_below(self.piece_by_square@, i as int),
                n <= i,
            decreases 64 - i,
        {
            if !self.piece_by_square[i].is_none() {
                n += 1;
            }
            i += 1;
        }
        n
    }

    /// Whether the three forms of the position agree.
    pub fn is_well_formed(&self) -> (r: bool)
        ensures
            r == self.wf(),
    {
        let mut i: u8 = 0;
        while i < 64
            invariant
                i <= 64,
                forall|k: int, j: int|
                    0 <= k < 12 && 0 <= j < i ==> #[trigger] bit(self.bitboards[k].0, j) == (
                    self.piece_by_square[j] == Piece::at(k)),
                forall|j: int|
                    0 <= j < i ==> #[trigger] bit(self.occupancy[0].0, j)
                        == self.piece_by_square[j].belongs_to(Color::White),
                forall|j: int|
                    0 <= j < i ==> #[trigger] bit(self.occupancy[1].0, j)
                        == self.piece_by_square[j].belongs_to(Color::Black),
            decreases 64 - i,
        {
            let square = Square::get_by_index(i);
            let piece = self.piece_by_square[i as usize];
            let white = !piece.is_none() && piece.value() < 6;
            let black = !piece.is_none() && piece.value() >= 6;
            if self.occupancy[0].get_bit_value(square) != white {
                assert(!self.wf());
                return false;
            }
            if self.occupancy[1].get_bit_value(square) != black {
                assert(!self.wf());
                return false;
            }
            let mut k: u8 = 0;
            while k < 12
                invariant
                    k <= 12,
                    i < 64,
                    square.ord() == i,
                    piece == self.piece_by_square[i as int],
                    forall|n: int|
                        0 <= n < k ==> #[trigger] bit(self.bitboards[n].0, i as int) == (piece
                            == Piece::at(n)),
                decreases 12 - k,
            {
                let here = self.bitboards[k as usize].get_bit_value(square);
                if here != (piece.value() == k) {
                    proof {
                        piece.lemma_value_at();
                        Piece::at(k as int).lemma_value_at();
                        assert(bit(self.bitboards[k as int].0, i as int) != (
                        self.piece_by_square[i as int] == Piece::at(k as int)));
                    }
                    return false;
                }
                proof {
                    piece.lemma_value_at();
                    Piece::at(k as int).lemma_value_at();
                }
                k += 1;
            }
            i += 1;
        }
        true
    }

    /// Whether the side has exactly one king.
    fn one_king(&self, color: Color) -> (r: bool)
        requires
            self.wf(),
            color.is_side(),
        ensures
            r == has_one_king(self.piece_by_square@, color),
    {
        let ghost p = self.piece_by_square@;
        let king = Piece::WhiteKing.to_color(color);
        let kings = self.bitboards[king.value() as usize];
        proof {
            king.lemma_value_at();
            self.lemma_sets_of_men();
            lemma_placement_bits(p, king, color);
            lemma_bit_zero(kings.0);
        }
        if kings.empty() {
            proof {
                if has_one_king(p, color) {
                    assert(p[king_square(p, color)] == king);
                    assert(bit(kings.0, king_square(p, color)));
                }
            }
            return false;
        }
        let first = kings.lsb_bit_square();
        let mut rest = kings;
        rest.pop_bit_value(first);
        proof {
            lemma_bit_zero(rest.0);
            if rest.0 == 0 {
                assert forall|i: int| on_board(i) implies ((#[trigger] p[i]) == king) == (i
                    == first.ord()) by {
                    assert(bit(rest.0, i) == (i != first.ord() && bit(kings.0, i)));
                }
                lemma_king_square(p, color, first.ord());
            } else {
                let i = choose|i: int| 0 <= i < 64 && bit(rest.0, i);
                assert(bit(kings.0, i) && i != first.ord());
                assert(p[i] == king && p[first.ord()] == king);
            }
        }
        rest.empty()
    }

    /// Whether no pawn stands on the first or the last row.
    fn pawns_in_place(&self) -> (r: bool)
        ensures
            r == self@.pawns_ok(),
    {
        let mut i: usize = 0;
        while i < 64
            invariant
                i <= 64,
                forall|j: int|
                    0 <= j < i && (#[trigger] self.piece_by_square[j]).spec_is_pawn() ==> 1 <= j / 8
                        <= 6,
            decreases 64 - i,
        {
            if self.piece_by_square[i].is_pawn() && (i / 8 == 0 || i / 8 == 7) {
                assert(self@.pieces[i as int].spec_is_pawn());
                return false;
            }
            i += 1;
        }
        true
    }

    /// Whether each castling right has its king and its rook at home.
    fn rights_in_place(&self) -> (r: bool)
        ensures
            r == self@.rights_ok(),
    {
        let rights = self.game_state.castle_settings;
        let white_king = self.piece_by_square[60] == Piece::WhiteKing;
        let black_king = self.piece_by_square[4] == Piece::BlackKing;
        (!rights.can_white_castle_king || (white_king && self.piece_by_square[63]
            == Piece::WhiteRook)) && (!rights.can_white_castle_queen || (white_king
            && self.piece_by_square[56] == Piece::WhiteRook)) && (!rights.can_black_castle_king || (
        black_king && self.piece_by_square[7] == Piece::BlackRook)) && (
        !rights.can_black_castle_queen || (black_king && self.piece_by_square[0]
            == Piece::BlackRook))
    }

    /// Whether the square to take on in passing, if there is one, is empty
    /// and has the pawn that passed it next to it.
    fn passing_in_place(&self) -> (r: bool)
        requires
            self.game_state.active_color.is_side(),
        ensures
            r == self@.passing_ok(),
    {
        match self.game_state.en_passant_target {
            None => true,
            Some(e) => {
                let i = e.index();
                let next: u8 = if (i / 8) % 2 == 0 {
                    i + 8
                } else {
                    i - 8
                };
                self.piece_by_square[i as usize] == Piece::Empty
                    && self.piece_by_square[next as usize] == Piece::WhitePawn.to_color(
                    self.game_state.active_color.opposite(),
                )
            },
        }
    }

    /// Whether the position on the board is sound: whether it can stand at
    /// the start of a game or a search.
    pub fn is_sound(&self, mg: &MoveGenerator) -> (r: bool)
        requires
            self.wf(),
            mg.wf(),
        ensures
            r == self@.sound(),
    {
        let color = self.game_state.active_color;
        if color == Color::Both {
            return false;
        }
        if !self.one_king(Color::White) || !self.one_king(Color::Black) {
            return false;
        }
        if !self.passing_in_place() || !self.rights_in_place() || !self.pawns_in_place() {
            return false;
        }
        let other = Piece::WhiteKing.to_color(color.opposite());
        proof {
            let p = self.piece_by_square@;
            other.lemma_value_at();
            self.lemma_sets_of_men();
            lemma_placement_bits(p, other, color);
            let k = king_square(p, color.spec_opposite());
            assert(p[k] == other);
            assert(bit(self.bitboards[other.spec_value() as int].0, k));
            lemma_bit_zero(self.bitboards[other.spec_value() as int].0);
        }
        let king = self.bitboards[other.value() as usize].lsb_bit_square();
        !mg.is_square_attacked(king, color, self)
    }
}

} // verus!
