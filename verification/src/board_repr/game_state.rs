use vstd::prelude::*;
use super::piece::Color;
use super::square::Square;
use crate::move_generation::moves::Move;

verus! {

/// Which of the four castling moves the game still allows.
#[derive(Clone, Copy, Debug, PartialEq, Eq, Structural)]
pub struct CastleAvailability {
    pub can_white_castle_queen: bool,
    pub can_white_castle_king: bool,
    pub can_black_castle_queen: bool,
    pub can_black_castle_king: bool,
}

impl Default for CastleAvailability {
    fn default() -> (r: CastleAvailability)
        ensures
            r == CastleAvailability::none(),
    {
        CastleAvailability {
            can_white_castle_queen: false,
            can_white_castle_king: false,
            can_black_castle_queen: false,
            can_black_castle_king: false,
        }
    }
}

impl CastleAvailability {
    /// No right at all.
    pub open spec fn none() -> CastleAvailability {
        CastleAvailability {
            can_white_castle_queen: false,
            can_white_castle_king: false,
            can_black_castle_queen: false,
            can_black_castle_king: false,
        }
    }

    /// The rights that are left once a king or a rook has left `square`, or a
    /// rook has been taken there: a corner takes one right away, a king's
    /// square both of its side, any other square none.
    pub open spec fn without(self, square: Square) -> CastleAvailability {
        CastleAvailability {
            can_white_castle_queen: self.can_white_castle_queen && square != Square::A1 && square
                != Square::E1,
            can_white_castle_king: self.can_white_castle_king && square != Square::H1 && square
                != Square::E1,
            can_black_castle_queen: self.can_black_castle_queen && square != Square::A8 && square
                != Square::E8,
            can_black_castle_king: self.can_black_castle_king && square != Square::H8 && square
                != Square::E8,
        }
    }

    pub fn set_by_square(&mut self, square: Square)
        ensures
            *final(self) == old(self).without(square),
    {
        match square {
            Square::A1 => self.can_white_castle_queen = false,
            Square::E1 => {
                self.can_white_castle_king = false;
                self.can_white_castle_queen = false;
            },
            Square::H1 => self.can_white_castle_king = false,
            Square::A8 => self.can_black_castle_queen = false,
            Square::E8 => {
                self.can_black_castle_king = false;
                self.can_black_castle_queen = false;
            },
            Square::H8 => self.can_black_castle_king = false,
            _ => (),
        }
    }
}

/// What a position holds besides the men: whose turn it is, the castling
/// rights, the square a pawn may be taken on in passing, the two counters,
/// and, in a record of the past, the move that was played from it.
#[derive(Clone, Copy, Debug)]
pub struct GameState {
    pub active_color: Color,
    pub castle_settings: CastleAvailability,
    pub en_passant_target: Option<Square>,
    pub halfmove_clock: u8,
    pub fullmove_number: u8,
    pub next_move: Move,
}

impl GameState {
    /// The state without the move that a record of the past keeps with it.
    pub open spec fn plain(self) -> GameState {
        GameState { next_move: Move::null(), ..self }
    }
}

impl Default for GameState {
    fn default() -> (r: GameState)
        ensures
            r.active_color == Color::White,
            r.castle_settings == CastleAvailability::none(),
            r.en_passant_target.is_none(),
            r.halfmove_clock == 0,
            r.fullmove_number == 0,
            r.next_move@ == Move::null_parts(),
    {
        GameState {
            active_color: Color::White,
            castle_settings: CastleAvailability::default(),
            en_passant_target: None,
            halfmove_clock: 0,
            fullmove_number: 0,
            next_move: Move::default(),
        }
    }
}

} // verus!
