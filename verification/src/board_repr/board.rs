use vstd::prelude::*;
use super::bit_board::bit;
use super::bit_board::lemma_bit_ops;
use super::bit_board::lemma_bits_equal;
use super::bit_board::BitBoard;
use super::game_state::CastleAvailability;
use super::game_state::GameState;
use super::geometry::on_board;
use super::history::History;
use super::piece::Color;
use super::piece::Piece;
use super::position::lemma_placement_bits;
use super::position::occupied_bits;
use super::position::piece_bits;
use super::position::side_bits;
use super::position::Position;
use super::square::Square;
use crate::move_generation::moves::Move;

verus! {

/// The first man, in the order of the pieces from `from` on, whose set holds
/// square `i`; `Empty` where none does.
pub open spec fn piece_on(bitboards: Seq<BitBoard>, i: int, from: int) -> Piece
    decreases 12 - from,
{
    if from >= 12 {
        Piece::Empty
    } else if bit(bitboards[from].0, i) {
        Piece::at(from)
    } else {
        piece_on(bitboards, i, from + 1)
    }
}

/// No square is in the sets of two different men.
pub open spec fn disjoint(bitboards: Seq<BitBoard>) -> bool {
    forall|i: int, a: int, b: int|
        0 <= a < 12 && 0 <= b < 12 && a != b ==> !(#[trigger] bit(bitboards[a].0, i)
            && #[trigger] bit(bitboards[b].0, i))
}

/// The union of the six sets from `from` on.
pub open spec fn six_union(bitboards: Seq<BitBoard>, from: int) -> u64 {
    bitboards[from].0 | bitboards[from + 1].0 | bitboards[from + 2].0 | bitboards[from + 3].0
        | bitboards[from + 4].0 | bitboards[from + 5].0
}

/// A position in three forms that say the same: one set of squares for each
/// man, one for each side, and the man on each square; with the state of
/// the game and the record of the states it went through.
pub struct Board {
    pub bitboards: [BitBoard; 12],
    pub occupancy: [BitBoard; 2],
    pub game_state: GameState,
    pub piece_by_square: [Piece; 64],
    pub history: History,
}

impl View for Board {
    type V = Position;

    open spec fn view(&self) -> Position {
        Position { pieces: self.piece_by_square@, state: self.game_state.plain() }
    }
}

impl Board {
    /// The three forms of the position agree: a square is in the set of a
    /// man exactly when that man stands on it, and in the set of a side
    /// exactly when a man of that side stands on it.
    pub open spec fn wf(&self) -> bool {
        &&& forall|k: int, i: int|
            0 <= k < 12 && on_board(i) ==> #[trigger] bit(self.bitboards[k].0, i) == (
            self.piece_by_square[i] == Piece::at(k))
        &&& forall|i: int|
            on_board(i) ==> #[trigger] bit(self.occupancy[0].0, i)
                == self.piece_by_square[i].belongs_to(Color::White)
        &&& forall|i: int|
            on_board(i) ==> #[trigger] bit(self.occupancy[1].0, i)
                == self.piece_by_square[i].belongs_to(Color::Black)
    }

    /// The squares that hold a man.
    pub open spec fn all_occupied(&self) -> u64 {
        self.occupancy[0].0 | self.occupancy[1].0
    }

    /// On a well-formed board every set is the set that the men on the
    /// squares give it: two such boards with the same men have the same sets.
    pub proof fn lemma_sets_of_men(&self)
        requires
            self.wf(),
        ensures
            forall|k: int|
                0 <= k < 12 ==> (#[trigger] self.bitboards[k]).0 == piece_bits(
                    self.piece_by_square@,
                    Piece::at(k),
                ),
            self.occupancy[0].0 == side_bits(self.piece_by_square@, Color::White),
            self.occupancy[1].0 == side_bits(self.piece_by_square@, Color::Black),
            self.all_occupied() == occupied_bits(self.piece_by_square@),
    {
        let p = self.piece_by_square@;
        assert forall|k: int| 0 <= k < 12 implies (#[trigger] self.bitboards[k]).0 == piece_bits(
            p,
            Piece::at(k),
        ) by {
            lemma_placement_bits(p, Piece::at(k), Color::White);
            lemma_bits_equal(self.bitboards[k].0, piece_bits(p, Piece::at(k)));
        }
        lemma_placement_bits(p, Piece::Empty, Color::White);
        lemma_bits_equal(self.occupancy[0].0, side_bits(p, Color::White));
        lemma_placement_bits(p, Piece::Empty, Color::Black);
        lemma_bits_equal(self.occupancy[1].0, side_bits(p, Color::Black));
        lemma_bit_ops(self.occupancy[0].0, self.occupancy[1].0);
        assert forall|i: int| 0 <= i < 64 implies bit(self.all_occupied(), i) == bit(
            occupied_bits(p),
            i,
        ) by {
            assert(bit(self.all_occupied(), i) == (bit(self.occupancy[0].0, i) || bit(
                self.occupancy[1].0,
                i,
            )));
        }
        lemma_bits_equal(self.all_occupied(), occupied_bits(p));
    }

    /// A board with the given sets of men and the given state, and no past.
    /// The man on each square is read off the sets; where the sets are
    /// disjoint, the board is well-formed.
    pub fn new(
        bitboards: [BitBoard; 12],
        active_color: Color,
        castle_settings: CastleAvailability,
        en_passant_target: Option<Square>,
        halfmove_clock: u8,
        fullmove_number: u8,
    ) -> (r: Board)
        ensures
            r.bitboards == bitboards,
            r.occupancy[0].0 == six_union(bitboards@, 0),
            r.occupancy[1].0 == six_union(bitboards@, 6),
            forall|i: int| 0 <= i < 64 ==> r.piece_by_square[i] == piece_on(bitboards@, i, 0),
            r.game_state.active_color == active_color,
            r.game_state.castle_settings == castle_settings,
            r.game_state.en_passant_target == en_passant_target,
            r.game_state.halfmove_clock == halfmove_clock,
            r.game_state.fullmove_number == fullmove_number,
            r.game_state.next_move@ == Move::null_parts(),
            r.history@ == Seq::<GameState>::empty(),
            disjoint(bitboards@) ==> r.wf(),
    {
        let piece_by_square = Self::init_piece_by_square(bitboards);
        let occupancy = Self::init_occupancy(bitboards);
        let next_move = Move::default();
        let history = History::new();
        let game_state = GameState {
            active_color,
            castle_settings,
            en_passant_target,
            halfmove_clock,
            fullmove_number,
            next_move,
        };
        let r = Board { bitboards, occupancy, game_state, history, piece_by_square };
        proof {
            if disjoint(bitboards@) {
                let b = bitboards@;
                assert forall|k: int, i: int| 0 <= k < 12 && on_board(i) implies #[trigger] bit(
                    r.bitboards[k].0,
                    i,
                ) == (r.piece_by_square[i] == Piece::at(k)) by {
                    Self::lemma_piece_on(b, i, 0);
                    if bit(b[k].0, i) {
                        assert(piece_on(b, i, 0) != Piece::Empty);
                        let j = piece_on(b, i, 0).spec_value() as int;
                        assert(bit(b[j].0, i));
                    }
                }
                lemma_bit_ops(b[0].0, b[1].0);
                lemma_bit_ops(b[0].0 | b[1].0, b[2].0);
                lemma_bit_ops(b[0].0 | b[1].0 | b[2].0, b[3].0);
                lemma_bit_ops(b[0].0 | b[1].0 | b[2].0 | b[3].0, b[4].0);
                lemma_bit_ops(b[0].0 | b[1].0 | b[2].0 | b[3].0 | b[4].0, b[5].0);
                lemma_bit_ops(b[6].0, b[7].0);
                lemma_bit_ops(b[6].0 | b[7].0, b[8].0);
                lemma_bit_ops(b[6].0 | b[7].0 | b[8].0, b[9].0);
                lemma_bit_ops(b[6].0 | b[7].0 | b[8].0 | b[9].0, b[10].0);
                lemma_bit_ops(b[6].0 | b[7].0 | b[8].0 | b[9].0 | b[10].0, b[11].0);
                assert forall|i: int| on_board(i) implies #[trigger] bit(r.occupancy[0].0, i)
                    == r.piece_by_square[i].belongs_to(Color::White) by {
                    Self::lemma_piece_on(b, i, 0);
                    assert(bit(r.occupancy[0].0, i) == (bit(b[0].0, i) || bit(b[1].0, i) || bit(
                        b[2].0,
                        i,
                    ) || bit(b[3].0, i) || bit(b[4].0, i) || bit(b[5].0, i)));
                    assert(bit(r.bitboards[0].0, i) == (r.piece_by_square[i] == Piece::at(0)));
                    assert(bit(r.bitboards[1].0, i) == (r.piece_by_square[i] == Piece::at(1)));
                    assert(bit(r.bitboards[2].0, i) == (r.piece_by_square[i] == Piece::at(2)));
                    assert(bit(r.bitboards[3].0, i) == (r.piece_by_square[i] == Piece::at(3)));
                    assert(bit(r.bitboards[4].0, i) == (r.piece_by_square[i] == Piece::at(4)));
                    assert(bit(r.bitboards[5].0, i) == (r.piece_by_square[i] == Piece::at(5)));
                }
                assert forall|i: int| on_board(i) implies #[trigger] bit(r.occupancy[1].0, i)
                    == r.piece_by_square[i].belongs_to(Color::Black) by {
                    Self::lemma_piece_on(b, i, 0);
                    assert(bit(r.occupancy[1].0, i) == (bit(b[6].0, i) || bit(b[7].0, i) || bit(
                        b[8].0,
                        i,
                    ) || bit(b[9].0, i) || bit(b[10].0, i) || bit(b[11].0, i)));
                    assert(bit(r.bitboards[6].0, i) == (r.piece_by_square[i] == Piece::at(6)));
                    assert(bit(r.bitboards[7].0, i) == (r.piece_by_square[i] == Piece::at(7)));
                    assert(bit(r.bitboards[8].0, i) == (r.piece_by_square[i] == Piece::at(8)));
                    assert(bit(r.bitboards[9].0, i) == (r.piece_by_square[i] == Piece::at(9)));
                    assert(bit(r.bitboards[10].0, i) == (r.piece_by_square[i] == Piece::at(10)));
                    assert(bit(r.bitboards[11].0, i) == (r.piece_by_square[i] == Piece::at(11)));
                }
            }
        }
        r
    }

    /// The man that `piece_on` finds is one whose set holds the square, and
    /// no man before it in the order has the square in its set.
    pub proof fn lemma_piece_on(bitboards: Seq<BitBoard>, i: int, from: int)
        requires
            0 <= from <= 12,
        ensures
            piece_on(bitboards, i, from) != Piece::Empty ==> from <= piece_on(
                bitboards,
                i,
                from,
            ).spec_value() < 12 && bit(
                bitboards[piece_on(bitboards, i, from).spec_value() as int].0,
                i,
            ),
            piece_on(bitboards, i, from) == Piece::Empty ==> forall|k: int|
                from <= k < 12 ==> !bit(#[trigger] bitboards[k].0, i),
        decreases 12 - from,
    {
        if from < 12 && !bit(bitboards[from].0, i) {
            Self::lemma_piece_on(bitboards, i, from + 1);
        }
    }

    /// The squares of White's men and the squares of Black's men.
    pub fn init_occupancy(bitboards: [BitBoard; 12]) -> (r: [BitBoard; 2])
        ensures
            r[0].0 == six_union(bitboards@, 0),
            r[1].0 == six_union(bitboards@, 6),
    {
        let white = bitboards[0].0 | bitboards[1].0 | bitboards[2].0 | bitboards[3].0
            | bitboards[4].0 | bitboards[5].0;
        let black = bitboards[6].0 | bitboards[7].0 | bitboards[8].0 | bitboards[9].0
            | bitboards[10].0 | bitboards[11].0;
        [BitBoard::from(white), BitBoard::from(black)]
    }

    /// The man on each square: the first in the order of the pieces whose
    /// set holds the square.
    pub fn init_piece_by_square(bitboards: [BitBoard; 12]) -> (r: [Piece; 64])
        ensures
            forall|i: int| 0 <= i < 64 ==> r[i] == piece_on(bitboards@, i, 0),
    {
        let mut result = [Piece::Empty;64];
        let mut i: u8 = 0;
        while i < 64
            invariant
                i <= 64,
                forall|j: int| 0 <= j < i ==> result[j] == piece_on(bitboards@, j, 0),
            decreases 64 - i,
        {
            let square = Square::get_by_index(i);
            let mut found = Piece::Empty;
            let mut k: u8 = 12;
            while k > 0
                invariant
                    k <= 12,
                    square.ord() == i,
                    found == piece_on(bitboards@, i as int, k as int),
                decreases k,
            {
                k -= 1;
                if bitboards[k as usize].get_bit_value(square) {
                    found = Piece::get_by_index(k);
                }
            }
            result[i as usize] = found;
            i += 1;
        }
        result
    }

    /// The squares of one side, or of both.
    pub fn get_occupancies(&self, color: Color) -> (r: BitBoard)
        ensures
            r.0 == match color {
                Color::White => self.occupancy[0].0,
                Color::Black => self.occupancy[1].0,
                Color::Both => self.all_occupied(),
            },
    {
        match color {
            Color::White => self.occupancy[0],
            Color::Black => self.occupancy[1],
            Color::Both => self.occupancy[0].union(self.occupancy[1]),
        }
    }

    pub fn active_color(&self) -> (r: Color)
        ensures
            r == self.game_state.active_color,
    {
        self.game_state.active_color
    }

    pub fn opponent_color(&self) -> (r: Color)
        ensures
            r == self.game_state.active_color.spec_opposite(),
    {
        self.game_state.active_color.opposite()
    }

    pub fn castle_settings_mut(&mut self) -> (r: &mut CastleAvailability)
        ensures
            *r == old(self).game_state.castle_settings,
            final(self).game_state.castle_settings == *final(r),
            final(self).game_state.active_color == old(self).game_state.active_color,
            final(self).game_state.en_passant_target == old(self).game_state.en_passant_target,
            final(self).game_state.halfmove_clock == old(self).game_state.halfmove_clock,
            final(self).game_state.fullmove_number == old(self).game_state.fullmove_number,
            final(self).game_state.next_move == old(self).game_state.next_move,
            final(self).bitboards == old(self).bitboards,
            final(self).occupancy == old(self).occupancy,
            final(self).piece_by_square == old(self).piece_by_square,
            final(self).history == old(self).history,
    {
        &mut self.game_state.castle_settings
    }

    pub fn castle_settings(&self) -> (r: &CastleAvailability)
        ensures
            *r == self.game_state.castle_settings,
    {
        &self.game_state.castle_settings
    }
}

} // verus!
