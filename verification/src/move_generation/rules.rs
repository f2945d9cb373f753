use vstd::prelude::*;
use super::moves::Move;
use super::moves::MoveParts;
use super::moves::MoveType;
use crate::board_repr::bit_board::bit;
use crate::board_repr::geometry::attacks;
use crate::board_repr::geometry::bits_where;
use crate::board_repr::geometry::gap;
use crate::board_repr::geometry::lemma_bits_where;
use crate::board_repr::geometry::on_board;
use crate::board_repr::geometry::pawn_rel;
use crate::board_repr::geometry::row;
use crate::board_repr::piece::Color;
use crate::board_repr::piece::Piece;
use crate::board_repr::position::attacked;
use crate::board_repr::position::king_square;
use crate::board_repr::position::occupied_bits;
use crate::board_repr::position::side_bits;
use crate::board_repr::position::Position;
use crate::board_repr::square::Square;

verus! {

/// What each move of a list says.
pub open spec fn parts(list: Seq<Move>) -> Seq<MoveParts> {
    Seq::new(list.len(), |i: int| list[i]@)
}

/// The row on which a pawn of the given side is promoted.
pub open spec fn promotion_row(color: Color) -> int {
    if color == Color::White {
        0
    } else {
        7
    }
}

/// The row on which the pawns of the given side start.
pub open spec fn home_row(color: Color) -> int {
    if color == Color::White {
        6
    } else {
        1
    }
}

/// The step of the index that takes a pawn of the given side one row forward.
pub open spec fn forward(color: Color) -> int {
    if color == Color::White {
        -8
    } else {
        8
    }
}

/// The move of `piece` from `s` to `t` without a promotion. Its marks are
/// read off the position: it takes what stands on `t`, it is marked as
/// taking in passing when `t` is the square for that, as castling when a
/// king goes two squares along its row, and as a double step when a pawn
/// goes two rows.
pub open spec fn plain_move(pos: Position, piece: Piece, s: int, t: int) -> MoveParts {
    MoveParts {
        source: Square::at(s),
        target: Square::at(t),
        piece: piece,
        captured: pos.pieces[t],
        promoted: Piece::Empty,
        en_passant: pos.state.en_passant_target == Some(Square::at(t)),
        castling: piece.spec_is_king() && gap(t, s) == 2,
        double_push: piece.spec_is_pawn() && gap(t, s) == 16,
    }
}

/// The same move with a promotion to the given kind of man of the side to move.
pub open spec fn promoting(base: MoveParts, kind: Piece, color: Color) -> MoveParts {
    MoveParts { promoted: kind.spec_to_color(color), ..base }
}

/// The moves of `piece` from `s` to `t`: one, or, for a pawn that arrives on
/// its last row, four: to a rook, a queen, a bishop and a knight.
pub open spec fn moves_to(pos: Position, piece: Piece, s: int, t: int) -> Seq<MoveParts> {
    let base = plain_move(pos, piece, s, t);
    if piece.spec_is_pawn() && row(t) == promotion_row(pos.active()) {
        seq![
            promoting(base, Piece::WhiteRook, pos.active()),
            promoting(base, Piece::WhiteQueen, pos.active()),
            promoting(base, Piece::WhiteBishop, pos.active()),
            promoting(base, Piece::WhiteKnight, pos.active()),
        ]
    } else {
        seq![base]
    }
}

/// The moves of `piece` from `s` to the squares of `targets` below `n`, from
/// the lowest square up.
pub open spec fn targets_moves(pos: Position, piece: Piece, s: int, targets: u64, n: int) -> Seq<
    MoveParts,
>
    decreases n,
{
    if n <= 0 {
        Seq::empty()
    } else {
        targets_moves(pos, piece, s, targets, n - 1) + if bit(targets, n - 1) {
            moves_to(pos, piece, s, n - 1)
        } else {
            Seq::empty()
        }
    }
}

/// The test whether the given man on `s` attacks a square.
pub open spec fn reach(piece: Piece, s: int, blockers: u64) -> spec_fn(int) -> bool {
    |t: int| attacks(piece, s, t, blockers)
}

/// The squares that the given man on `s` attacks.
pub open spec fn attack_bits(piece: Piece, s: int, blockers: u64) -> u64 {
    bits_where(reach(piece, s, blockers))
}

/// The squares that a piece (no pawn) on `s` may go to, for the kind of
/// moves asked for: for all moves those that hold no man of its own side,
/// for captures those that hold a man of the other side, for quiet moves
/// those that hold a man.
pub open spec fn piece_targets(pos: Position, piece: Piece, s: int, move_type: MoveType) -> u64 {
    let attack = attack_bits(piece, s, occupied_bits(pos.pieces));
    match move_type {
        MoveType::All => attack & !side_bits(pos.pieces, pos.active()),
        MoveType::Quite => attack & occupied_bits(pos.pieces),
        MoveType::Capture => attack & side_bits(pos.pieces, pos.active().spec_opposite()),
    }
}

/// The moves of all the men of the kind of `piece` that the side to move
/// has on the squares below `n`, each named as `piece` in its moves.
pub open spec fn piece_moves(pos: Position, piece: Piece, move_type: MoveType, n: int) -> Seq<
    MoveParts,
>
    decreases n,
{
    if n <= 0 {
        Seq::empty()
    } else {
        piece_moves(pos, piece, move_type, n - 1) + if pos.pieces[n - 1] == piece.spec_to_color(
            pos.active(),
        ) {
            targets_moves(pos, piece, n - 1, piece_targets(pos, piece, n - 1, move_type), 64)
        } else {
            Seq::empty()
        }
    }
}

/// The test whether a pawn of the side to move on `s` may go to a square:
/// one row forward onto an empty square, or two from its home row over an
/// empty square onto an empty one, unless only captures are asked for; or,
/// unless only quiet moves are asked for, onto a square that it attacks and
/// that holds a man of the other side or is the square to take on in passing.
pub open spec fn pawn_goal(pos: Position, s: int, move_type: MoveType) -> spec_fn(int) -> bool {
    |t: int|
        {
            let c = pos.active();
            let one = s + forward(c);
            let two = s + 2 * forward(c);
            ||| (move_type != MoveType::Capture && on_board(t) && t == one && pos.pieces[t]
                == Piece::Empty)
            ||| (move_type != MoveType::Capture && on_board(t) && t == two && row(s) == home_row(c)
                && pos.pieces[one] == Piece::Empty && pos.pieces[t] == Piece::Empty)
            ||| (move_type != MoveType::Quite && pawn_rel(c, s, t) && (pos.pieces[t].belongs_to(
                c.spec_opposite(),
            ) || pos.state.en_passant_target == Some(Square::at(t))))
        }
}

/// The squares that a pawn of the side to move on `s` may go to.
pub open spec fn pawn_targets(pos: Position, s: int, move_type: MoveType) -> u64 {
    bits_where(pawn_goal(pos, s, move_type))
}

/// The moves of the pawns that the side to move has on the squares below `n`.
pub open spec fn pawn_moves(pos: Position, move_type: MoveType, n: int) -> Seq<MoveParts>
    decreases n,
{
    if n <= 0 {
        Seq::empty()
    } else {
        pawn_moves(pos, move_type, n - 1) + if pos.pieces[n - 1] == Piece::WhitePawn.spec_to_color(
            pos.active(),
        ) {
            targets_moves(
                pos,
                Piece::WhitePawn.spec_to_color(pos.active()),
                n - 1,
                pawn_targets(pos, n - 1, move_type),
                64,
            )
        } else {
            Seq::empty()
        }
    }
}

/// The side to move may castle on the king's side: it has the right, the
/// two squares between king and rook are empty, and neither they nor the
/// king's own square are attacked.
pub open spec fn may_castle_king(pos: Position) -> bool {
    let p = pos.pieces;
    if pos.active() == Color::White {
        pos.state.castle_settings.can_white_castle_king && p[Square::F1.ord()] == Piece::Empty
            && p[Square::G1.ord()] == Piece::Empty && !attacked(p, Square::E1.ord(), Color::Black)
            && !attacked(p, Square::F1.ord(), Color::Black) && !attacked(
            p,
            Square::G1.ord(),
            Color::Black,
        )
    } else {
        pos.active() == Color::Black && pos.state.castle_settings.can_black_castle_king
            && p[Square::F8.ord()] == Piece::Empty && p[Square::G8.ord()] == Piece::Empty
            && !attacked(p, Square::E8.ord(), Color::White) && !attacked(
            p,
            Square::F8.ord(),
            Color::White,
        ) && !attacked(p, Square::G8.ord(), Color::White)
    }
}

/// The side to move may castle on the queen's side: it has the right, the
/// three squares between king and rook are empty, and neither the king's
/// own square nor the two it crosses are attacked.
pub open spec fn may_castle_queen(pos: Position) -> bool {
    let p = pos.pieces;
    if pos.active() == Color::White {
        pos.state.castle_settings.can_white_castle_queen && p[Square::B1.ord()] == Piece::Empty
            && p[Square::C1.ord()] == Piece::Empty && p[Square::D1.ord()] == Piece::Empty
            && !attacked(p, Square::E1.ord(), Color::Black) && !attacked(
            p,
            Square::D1.ord(),
            Color::Black,
        ) && !attacked(p, Square::C1.ord(), Color::Black)
    } else {
        pos.active() == Color::Black && pos.state.castle_settings.can_black_castle_queen
            && p[Square::B8.ord()] == Piece::Empty && p[Square::C8.ord()] == Piece::Empty
            && p[Square::D8.ord()] == Piece::Empty && !attacked(p, Square::E8.ord(), Color::White)
            && !attacked(p, Square::D8.ord(), Color::White) && !attacked(
            p,
            Square::C8.ord(),
            Color::White,
        )
    }
}

/// The castling moves of the side to move: the king's side first.
pub open spec fn castle_moves(pos: Position) -> Seq<MoveParts> {
    let c = pos.active();
    let king = Piece::WhiteKing.spec_to_color(c);
    let from = king_square(pos.pieces, c);
    let g = if c == Color::White {
        Square::G1.ord()
    } else {
        Square::G8.ord()
    };
    let cc = if c == Color::White {
        Square::C1.ord()
    } else {
        Square::C8.ord()
    };
    (if may_castle_king(pos) {
        moves_to(pos, king, from, g)
    } else {
        Seq::empty()
    }) + (if may_castle_queen(pos) {
        moves_to(pos, king, from, cc)
    } else {
        Seq::empty()
    })
}

/// The moves of the side to move, before the test whether they leave its
/// king in check: those of the pawns, the castling moves (unless only
/// captures are asked for), then those of the king, the queens, the rooks,
/// the bishops and the knights.
#[verifier::opaque]
pub open spec fn pseudo_moves(pos: Position, move_type: MoveType) -> Seq<MoveParts> {
    let c = pos.active();
    pawn_moves(pos, move_type, 64) + (if move_type != MoveType::Capture {
        castle_moves(pos)
    } else {
        Seq::empty()
    }) + piece_moves(pos, Piece::WhiteKing.spec_to_color(c), move_type, 64) + piece_moves(
        pos,
        Piece::WhiteQueen.spec_to_color(c),
        move_type,
        64,
    ) + piece_moves(pos, Piece::WhiteRook.spec_to_color(c), move_type, 64) + piece_moves(
        pos,
        Piece::WhiteBishop.spec_to_color(c),
        move_type,
        64,
    ) + piece_moves(pos, Piece::WhiteKnight.spec_to_color(c), move_type, 64)
}

/// The squares of the named sets are those that their tests pick.
pub proof fn lemma_rule_bits(pos: Position, piece: Piece, s: int, move_type: MoveType, blockers: u64)
    ensures
        forall|t: int|
            #[trigger] bit(attack_bits(piece, s, blockers), t) == (on_board(t) && attacks(
                piece,
                s,
                t,
                blockers,
            )),
        forall|t: int|
            #[trigger] bit(pawn_targets(pos, s, move_type), t) == (on_board(t) && pawn_goal(
                pos,
                s,
                move_type,
            )(t)),
{
    lemma_bits_where(reach(piece, s, blockers));
    lemma_bits_where(pawn_goal(pos, s, move_type));
}

/// Squares of `targets` from `a` up to `b` that are not in it add no move.
pub proof fn lemma_targets_skip(pos: Position, piece: Piece, s: int, targets: u64, a: int, b: int)
    requires
        0 <= a <= b,
        forall|i: int| a <= i < b ==> !bit(targets, i),
    ensures
        targets_moves(pos, piece, s, targets, b) == targets_moves(pos, piece, s, targets, a),
    decreases b - a,
{
    if a < b {
        lemma_targets_skip(pos, piece, s, targets, a, b - 1);
    }
}

/// Squares from `a` up to `b` that hold no man of the kind add no move.
pub proof fn lemma_piece_skip(pos: Position, piece: Piece, move_type: MoveType, a: int, b: int)
    requires
        0 <= a <= b,
        forall|i: int| a <= i < b ==> pos.pieces[i] != piece.spec_to_color(pos.active()),
    ensures
        piece_moves(pos, piece, move_type, b) == piece_moves(pos, piece, move_type, a),
    decreases b - a,
{
    if a < b {
        lemma_piece_skip(pos, piece, move_type, a, b - 1);
    }
}

/// Squares from `a` up to `b` that hold no pawn of the side to move add no move.
pub proof fn lemma_pawn_skip(pos: Position, move_type: MoveType, a: int, b: int)
    requires
        0 <= a <= b,
        forall|i: int| a <= i < b ==> pos.pieces[i] != Piece::WhitePawn.spec_to_color(pos.active()),
    ensures
        pawn_moves(pos, move_type, b) == pawn_moves(pos, move_type, a),
    decreases b - a,
{
    if a < b {
        lemma_pawn_skip(pos, move_type, a, b - 1);
    }
}

} // verus!
