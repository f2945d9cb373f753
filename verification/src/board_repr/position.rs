use vstd::prelude::*;
use super::bit_board::bit;
use super::bit_board::lowest;
use super::game_state::GameState;
use super::geometry::attacks;
use super::geometry::bits_where;
use super::geometry::lemma_bits_where;
use super::geometry::on_board;
use super::piece::Color;
use super::piece::Piece;
use super::square::Square;
use crate::move_generation::moves::MoveParts;

verus! {

/// The squares on which the men stand: 64 entries, by index of the square.
pub type Placement = Seq<Piece>;

/// The squares that hold the given man.
pub open spec fn piece_bits(pieces: Placement, piece: Piece) -> u64 {
    bits_where(stands_on(pieces, piece))
}

/// The test whether the given man stands on a square.
pub open spec fn stands_on(pieces: Placement, piece: Piece) -> spec_fn(int) -> bool {
    |i: int| pieces[i] == piece
}

/// The squares that hold a man of the given side.
pub open spec fn side_bits(pieces: Placement, color: Color) -> u64 {
    bits_where(|i: int| pieces[i].belongs_to(color))
}

/// The squares that hold a man.
pub open spec fn occupied_bits(pieces: Placement) -> u64 {
    bits_where(|i: int| pieces[i] != Piece::Empty)
}

/// The three kinds of sets hold exactly the squares that their names say.
pub proof fn lemma_placement_bits(pieces: Placement, piece: Piece, color: Color)
    ensures
        forall|i: int|
            #[trigger] bit(piece_bits(pieces, piece), i) == (on_board(i) && pieces[i] == piece),
        forall|i: int|
            #[trigger] bit(side_bits(pieces, color), i) == (on_board(i) && pieces[i].belongs_to(
                color,
            )),
        forall|i: int|
            #[trigger] bit(occupied_bits(pieces), i) == (on_board(i) && pieces[i] != Piece::Empty),
{
    lemma_bits_where(stands_on(pieces, piece));
    lemma_bits_where(|i: int| pieces[i].belongs_to(color));
    lemma_bits_where(|i: int| pieces[i] != Piece::Empty);
}

/// The number of men on the board, among the squares below `n`.
pub open spec fn men_below(pieces: Placement, n: int) -> int
    decreases n,
{
    if n <= 0 {
        0
    } else {
        men_below(pieces, n - 1) + if pieces[n - 1] != Piece::Empty {
            1int
        } else {
            0int
        }
    }
}

/// The number of men on the board.
pub open spec fn men(pieces: Placement) -> int {
    men_below(pieces, 64)
}

/// There are between none and `n` men on the squares below `n`.
pub proof fn lemma_men_below_range(pieces: Placement, n: int)
    requires
        0 <= n,
    ensures
        0 <= men_below(pieces, n) <= n,
    decreases n,
{
    if n > 0 {
        lemma_men_below_range(pieces, n - 1);
    }
}

/// There are between none and 64 men on the board.
pub proof fn lemma_men_range(pieces: Placement)
    ensures
        0 <= men(pieces) <= 64,
{
    lemma_men_below_range(pieces, 64);
}

/// Some man of the side `by` attacks the square `t`.
pub open spec fn attacked(pieces: Placement, t: int, by: Color) -> bool {
    exists|s: int|
        on_board(s) && (#[trigger] pieces[s]).belongs_to(by) && attacks(
            pieces[s],
            s,
            t,
            occupied_bits(pieces),
        )
}

/// The square of the king of the given side: the lowest one, if there are several.
pub open spec fn king_square(pieces: Placement, color: Color) -> int {
    lowest(piece_bits(pieces, Piece::WhiteKing.spec_to_color(color)))
}

/// The side has exactly one king.
pub open spec fn has_one_king(pieces: Placement, color: Color) -> bool {
    let k = king_square(pieces, color);
    &&& on_board(k)
    &&& forall|i: int|
        on_board(i) ==> ((#[trigger] pieces[i]) == Piece::WhiteKing.spec_to_color(color)) == (i
            == k)
}

/// The neighbour of a square in the next or the previous row: the index with
/// its fourth bit turned over. This is the square behind a pawn that has
/// just made a double step, seen from the square it arrived on, and the
/// square of that pawn, seen from the square it passed over.
pub open spec fn flip8(i: int) -> int {
    if (i / 8) % 2 == 0 {
        i + 8
    } else {
        i - 8
    }
}

/// Where the rook stands before castling with the king going to `target`.
pub open spec fn rook_from(target: Square) -> Square {
    match target {
        Square::G1 => Square::H1,
        Square::C1 => Square::A1,
        Square::G8 => Square::H8,
        _ => Square::A8,
    }
}

/// Where the rook stands after castling with the king going to `target`.
pub open spec fn rook_to(target: Square) -> Square {
    match target {
        Square::G1 => Square::F1,
        Square::C1 => Square::D1,
        Square::G8 => Square::F8,
        _ => Square::D8,
    }
}

/// Where the king stands before castling to `target`.
pub open spec fn king_home(target: Square) -> Square {
    match target {
        Square::G1 | Square::C1 => Square::E1,
        _ => Square::E8,
    }
}

/// The four squares a castling king can arrive on.
pub open spec fn is_castle_target(target: Square) -> bool {
    target == Square::G1 || target == Square::C1 || target == Square::G8 || target == Square::C8
}

/// The men and the state of one position.
pub struct Position {
    pub pieces: Placement,
    pub state: GameState,
}

impl Position {
    /// The side to move.
    pub open spec fn active(self) -> Color {
        self.state.active_color
    }

    /// The king of the side to move is attacked.
    pub open spec fn in_check(self) -> bool {
        attacked(
            self.pieces,
            king_square(self.pieces, self.active()),
            self.active().spec_opposite(),
        )
    }

    /// What the position asks of a move before the move can be made on it:
    /// the men it names stand where it says, what it takes belongs to the
    /// other side and is no king, its marks fit the men around it, a king
    /// castles from its own square, and a pawn that is not promoted does not
    /// end on the first or the last row.
    pub open spec fn admits(self, f: MoveParts) -> bool {
        let s = f.source.ord();
        let t = f.target.ord();
        let c = self.active();
        let p = self.pieces;
        &&& c.is_side()
        &&& f.piece.belongs_to(c)
        &&& p[s] == f.piece
        &&& p[t] == f.captured
        &&& f.captured != Piece::Empty ==> f.captured.belongs_to(c.spec_opposite())
            && !f.captured.spec_is_king()
        &&& f.promoted != Piece::Empty ==> f.piece.spec_is_pawn() && f.promoted.belongs_to(c)
            && !f.promoted.spec_is_pawn() && !f.promoted.spec_is_king()
        &&& f.en_passant ==> f.captured == Piece::Empty && p[flip8(t)]
            == Piece::WhitePawn.spec_to_color(c.spec_opposite())
        &&& f.double_push ==> f.piece.spec_is_pawn() && f.promoted == Piece::Empty && f.captured
            == Piece::Empty && p[flip8(t)] == Piece::Empty && flip8(t) != s
        &&& f.castling ==> f.piece.spec_is_king() && is_castle_target(f.target) && f.captured
            == Piece::Empty && p[rook_from(f.target).ord()] == Piece::WhiteRook.spec_to_color(c)
            && p[rook_to(f.target).ord()] == Piece::Empty && f.source == king_home(f.target)
        &&& f.piece.spec_is_pawn() && f.promoted == Piece::Empty ==> 1 <= t / 8 <= 6
    }

    /// The men after the move.
    pub open spec fn pieces_after(self, f: MoveParts) -> Placement {
        let s = f.source.ord();
        let t = f.target.ord();
        let cleared = if f.captured != Piece::Empty {
            self.pieces.update(t, Piece::Empty)
        } else {
            self.pieces
        };
        let moved = if !f.piece.spec_is_pawn() {
            cleared.update(s, Piece::Empty).update(t, f.piece)
        } else {
            let placed = if f.promoted != Piece::Empty {
                f.promoted
            } else {
                f.piece
            };
            let q = cleared.update(s, Piece::Empty).update(t, placed);
            if f.en_passant {
                q.update(flip8(t), Piece::Empty)
            } else {
                q
            }
        };
        if f.castling {
            moved.update(rook_from(f.target).ord(), Piece::Empty).update(
                rook_to(f.target).ord(),
                Piece::WhiteRook.spec_to_color(self.active()),
            )
        } else {
            moved
        }
    }

    /// The state after the move: the clock goes up by one or back to zero on
    /// a capture, the square to take on in passing is set by a double step
    /// and cleared by anything else, rights go with the king and the rooks,
    /// the other side is to move, and the move number goes up when that
    /// side is White.
    pub open spec fn state_after(self, f: MoveParts) -> GameState {
        let c1 = if f.captured.spec_is_rook() {
            self.state.castle_settings.without(f.target)
        } else {
            self.state.castle_settings
        };
        let c2 = if f.piece.spec_is_king() || f.piece.spec_is_rook() {
            c1.without(f.source)
        } else {
            c1
        };
        let next = self.active().spec_opposite();
        GameState {
            active_color: next,
            castle_settings: c2,
            en_passant_target: if f.piece.spec_is_pawn() && f.double_push {
                Some(Square::at(flip8(f.target.ord())))
            } else {
                None
            },
            halfmove_clock: if f.captured != Piece::Empty {
                0u8
            } else {
                (self.state.halfmove_clock + 1) as u8
            },
            fullmove_number: if next == Color::White {
                (self.state.fullmove_number + 1) as u8
            } else {
                self.state.fullmove_number
            },
            next_move: self.state.next_move,
        }
    }

    /// The position after the move.
    pub open spec fn made(self, f: MoveParts) -> Position {
        Position { pieces: self.pieces_after(f), state: self.state_after(f) }
    }

    /// The move leaves the mover's own king out of check.
    pub open spec fn is_legal(self, f: MoveParts) -> bool {
        !attacked(
            self.pieces_after(f),
            king_square(self.pieces_after(f), self.active()),
            self.active().spec_opposite(),
        )
    }

    /// The men before the move that led from the recorded state `before` to
    /// these men.
    pub open spec fn pieces_before(self, before: GameState) -> Placement {
        let f = before.next_move@;
        let s = f.source.ord();
        let t = f.target.ord();
        let c = before.active_color;
        let cleared = if f.promoted == Piece::Empty {
            self.pieces.update(t, Piece::Empty).update(s, f.piece)
        } else {
            self.pieces.update(t, Piece::Empty).update(s, Piece::WhitePawn.spec_to_color(c))
        };
        let moved = if f.castling {
            cleared.update(rook_to(f.target).ord(), Piece::Empty).update(
                rook_from(f.target).ord(),
                Piece::WhiteRook.spec_to_color(c),
            )
        } else {
            cleared
        };
        let restored = if f.captured != Piece::Empty {
            moved.update(t, f.captured)
        } else {
            moved
        };
        if f.en_passant {
            restored.update(flip8(t), Piece::WhitePawn.spec_to_color(c.spec_opposite()))
        } else {
            restored
        }
    }

    /// What the position asks before the move recorded in `before` can be
    /// taken back on it: the man that moved stands on the target of the
    /// move, as what it was promoted to if it was, its source is empty, a
    /// castled rook stands next to the king with its corner empty, and the
    /// square of a pawn taken in passing is empty or holds that pawn still.
    pub open spec fn undoable(self, before: GameState) -> bool {
        let f = before.next_move@;
        let s = f.source.ord();
        let t = f.target.ord();
        let c = before.active_color;
        let p = self.pieces;
        &&& c.is_side()
        &&& f.piece.belongs_to(c)
        &&& s != t
        &&& p[s] == Piece::Empty
        &&& p[t] == if f.promoted != Piece::Empty {
            f.promoted
        } else {
            f.piece
        }
        &&& f.castling ==> is_castle_target(f.target) && p[rook_to(f.target).ord()]
            == Piece::WhiteRook.spec_to_color(c) && p[rook_from(f.target).ord()] == Piece::Empty
            && rook_from(f.target).ord() != s && rook_to(f.target).ord() != s
        &&& f.en_passant ==> flip8(t) != s && (p[flip8(t)] == Piece::Empty || p[flip8(t)]
            == Piece::WhitePawn.spec_to_color(c.spec_opposite()))
    }

    /// The position before the move that led from the recorded state
    /// `before` to this one.
    pub open spec fn unmade(self, before: GameState) -> Position {
        Position { pieces: self.pieces_before(before), state: before.plain() }
    }

    /// A square to take on in passing is empty, and the pawn that passed it
    /// stands next to it.
    pub open spec fn passing_ok(self) -> bool {
        self.state.en_passant_target matches Some(e) ==> self.pieces[e.ord()] == Piece::Empty
            && self.pieces[flip8(e.ord())] == Piece::WhitePawn.spec_to_color(
            self.active().spec_opposite(),
        )
    }

    /// A castling right has its king and its rook at home.
    pub open spec fn rights_ok(self) -> bool {
        let p = self.pieces;
        let rights = self.state.castle_settings;
        &&& rights.can_white_castle_king ==> p[Square::E1.ord()] == Piece::WhiteKing
            && p[Square::H1.ord()] == Piece::WhiteRook
        &&& rights.can_white_castle_queen ==> p[Square::E1.ord()] == Piece::WhiteKing
            && p[Square::A1.ord()] == Piece::WhiteRook
        &&& rights.can_black_castle_king ==> p[Square::E8.ord()] == Piece::BlackKing
            && p[Square::H8.ord()] == Piece::BlackRook
        &&& rights.can_black_castle_queen ==> p[Square::E8.ord()] == Piece::BlackKing
            && p[Square::A8.ord()] == Piece::BlackRook
    }

    /// No pawn stands on the first or the last row.
    pub open spec fn pawns_ok(self) -> bool {
        forall|i: int| on_board(i) && (#[trigger] self.pieces[i]).spec_is_pawn() ==> 1 <= i / 8 <= 6
    }

    /// What holds of every position of a game: there are 64 squares, one of
    /// the two sides is to move, each side has one king, a square to take on
    /// in passing is empty and has the pawn that passed it next to it, a
    /// castling right has its king and rook at home, the side to move
    /// cannot take the other side's king, and no pawn stands on the first or
    /// the last row.
    pub open spec fn sound(self) -> bool {
        let p = self.pieces;
        let c = self.active();
        &&& p.len() == 64
        &&& c.is_side()
        &&& has_one_king(p, Color::White)
        &&& has_one_king(p, Color::Black)
        &&& self.passing_ok()
        &&& self.rights_ok()
        &&& !attacked(p, king_square(p, c.spec_opposite()), c)
        &&& self.pawns_ok()
    }

    /// The man on square `i` after the move.
    pub open spec fn cell_after(self, f: MoveParts, i: int) -> Piece {
        if f.castling && i == rook_to(f.target).ord() {
            Piece::WhiteRook.spec_to_color(self.active())
        } else if f.castling && i == rook_from(f.target).ord() {
            Piece::Empty
        } else if f.piece.spec_is_pawn() && f.en_passant && i == flip8(f.target.ord()) {
            Piece::Empty
        } else if i == f.target.ord() {
            if f.piece.spec_is_pawn() && f.promoted != Piece::Empty {
                f.promoted
            } else {
                f.piece
            }
        } else if i == f.source.ord() {
            Piece::Empty
        } else {
            self.pieces[i]
        }
    }
}

/// After a move that the position admits, each square holds what
/// `cell_after` says.
pub proof fn lemma_cells_after(pos: Position, f: MoveParts)
    requires
        pos.pieces.len() == 64,
        pos.admits(f),
    ensures
        pos.pieces_after(f).len() == 64,
        forall|i: int| on_board(i) ==> #[trigger] pos.pieces_after(f)[i] == pos.cell_after(f, i),
{
    f.source.lemma_at_ord();
    f.target.lemma_at_ord();
    rook_from(f.target).lemma_at_ord();
    rook_to(f.target).lemma_at_ord();
}

/// A move that the position admits can be taken back on the position that
/// it leads to, and taking it back gives the men of the position again.
pub proof fn lemma_unmake_restores(pos: Position, before: GameState)
    requires
        pos.pieces.len() == 64,
        pos.admits(before.next_move@),
        before.active_color == pos.active(),
    ensures
        pos.made(before.next_move@).undoable(before),
        pos.made(before.next_move@).pieces_before(before) == pos.pieces,
        pos.made(before.next_move@).unmade(before) == (Position {
            pieces: pos.pieces,
            state: before.plain(),
        }),
{
    let f = before.next_move@;
    f.source.lemma_at_ord();
    f.target.lemma_at_ord();
    rook_from(f.target).lemma_at_ord();
    rook_to(f.target).lemma_at_ord();
    let after = pos.made(f);
    assert(after.pieces_before(before) =~= pos.pieces);
}

/// A side that has one king has a square that holds it.
pub proof fn lemma_king_exists(pieces: Placement, color: Color)
    requires
        has_one_king(pieces, color),
    ensures
        exists|i: int| on_board(i) && #[trigger] pieces[i] == Piece::WhiteKing.spec_to_color(color),
{
    assert(pieces[king_square(pieces, color)] == Piece::WhiteKing.spec_to_color(color));
}

proof fn lemma_men_below_some(pieces: Placement, i: int, n: int)
    requires
        0 <= i < n,
        pieces[i] != Piece::Empty,
    ensures
        men_below(pieces, n) >= 1,
    decreases n,
{
    lemma_men_below_range(pieces, n - 1);
    if i < n - 1 {
        lemma_men_below_some(pieces, i, n - 1);
    }
}

/// A sound position has a man on the board.
pub proof fn lemma_sound_has_men(pos: Position)
    requires
        pos.sound(),
    ensures
        1 <= men(pos.pieces) <= 64,
{
    lemma_men_range(pos.pieces);
    let k = king_square(pos.pieces, Color::White);
    assert(pos.pieces[k] == Piece::WhiteKing);
    lemma_men_below_some(pos.pieces, k, 64);
}

} // verus!
