use vstd::prelude::*;
use super::magics::Magic;
use super::move_list::MoveList;
use super::moves::Move;
use super::moves::MoveParts;
use super::moves::MoveType;
use super::rules::attack_bits;
use super::rules::castle_moves;
use super::rules::forward;
use super::rules::home_row;
use super::rules::lemma_pawn_skip;
use super::rules::lemma_piece_skip;
use super::rules::lemma_rule_bits;
use super::rules::lemma_targets_skip;
use super::rules::may_castle_king;
use super::rules::may_castle_queen;
use super::rules::moves_to;
use super::rules::parts;
use super::rules::pawn_moves;
use super::rules::pawn_targets;
use super::rules::piece_moves;
use super::rules::piece_targets;
use super::rules::plain_move;
use super::rules::promoting;
use super::rules::promotion_row;
use super::rules::pseudo_moves;
use super::rules::targets_moves;
use super::tables::bishop_word;
use super::tables::generate_bishop_attack_masks;
use super::tables::generate_king_attack_masks;
use super::tables::generate_knight_attack_masks;
use super::tables::generate_pawn_attack_masks;
use super::tables::generate_rook_attack_masks;
use super::tables::lemma_slider_words;
use super::tables::magics_fit;
use super::tables::rook_word;
use super::tables::table_serves;
use crate::board_repr::bit_board::bit;
use crate::board_repr::bit_board::lemma_bit_ops;
use crate::board_repr::bit_board::lemma_bit_zero;
use crate::board_repr::bit_board::lemma_bits_equal;
use crate::board_repr::bit_board::BitBoard;
use crate::board_repr::board::Board;
use crate::board_repr::geometry::attacks;
use crate::board_repr::geometry::bishop_rel;
use crate::board_repr::geometry::king_rel;
use crate::board_repr::geometry::knight_rel;
use crate::board_repr::geometry::lemma_slider_symmetric;
use crate::board_repr::geometry::on_board;
use crate::board_repr::geometry::pawn_rel;
use crate::board_repr::geometry::queen_rel;
use crate::board_repr::geometry::rook_rel;
use crate::board_repr::piece::Color;
use crate::board_repr::piece::Piece;
use crate::board_repr::position::attacked;
use crate::board_repr::position::king_square;
use crate::board_repr::position::lemma_placement_bits;
use crate::board_repr::position::occupied_bits;
use crate::board_repr::position::Position;
use crate::board_repr::square::Square;

verus! {

/// The attack tables: one set of squares for each square for the king, the
/// knight and the pawns of each side, and for the rook and the bishop one
/// table each over all squares and blocker sets, reached through the 64
/// entries of the piece.
pub struct MoveGenerator {
    pub king: [BitBoard; 64],
    pub pawn: [[BitBoard; 64]; 2],
    pub rook: Vec<BitBoard>,
    pub bishop: Vec<BitBoard>,
    pub knight: [BitBoard; 64],
    pub rook_magics: [Magic; 64],
    pub bishop_magics: [Magic; 64],
}

impl MoveGenerator {
    /// Every table holds what its piece attacks.
    pub open spec fn wf(&self) -> bool {
        &&& forall|s: int, t: int|
            0 <= s < 64 ==> #[trigger] bit(self.king[s].0, t) == king_rel(s, t)
        &&& forall|s: int, t: int|
            0 <= s < 64 ==> #[trigger] bit(self.knight[s].0, t) == knight_rel(s, t)
        &&& forall|s: int, t: int|
            0 <= s < 64 ==> #[trigger] bit(self.pawn[0][s].0, t) == pawn_rel(Color::White, s, t)
        &&& forall|s: int, t: int|
            0 <= s < 64 ==> #[trigger] bit(self.pawn[1][s].0, t) == pawn_rel(Color::Black, s, t)
        &&& table_serves(self.rook@, self.rook_magics@, true)
        &&& table_serves(self.bishop@, self.bishop_magics@, false)
    }

    /// Builds all the tables. There is a generator exactly when the
    /// multipliers of both sliders fit; its tables then hold what the pieces
    /// attack.
    pub fn new() -> (r: Option<MoveGenerator>)
        ensures
            r.is_some() == (magics_fit(true) && magics_fit(false)),
            r matches Some(g) ==> g.wf(),
    {
        let king = generate_king_attack_masks();
        let pawn = generate_pawn_attack_masks();
        let knight = generate_knight_attack_masks();
        let (bishop, bishop_magics) = match generate_bishop_attack_masks() {
            Some(pair) => pair,
            None => {
                return None;
            },
        };
        let (rook, rook_magics) = match generate_rook_attack_masks() {
            Some(pair) => pair,
            None => {
                return None;
            },
        };
        Some(MoveGenerator { king, pawn, knight, bishop, rook, bishop_magics, rook_magics })
    }

    pub fn get_bishop_attack(&self, square: Square, blocker: BitBoard) -> (r: BitBoard)
        requires
            self.wf(),
        ensures
            r.0 == bishop_word(square.ord(), blocker.0),
            forall|t: int| #[trigger] bit(r.0, t) == bishop_rel(square.ord(), t, blocker.0),
    {
        proof {
            lemma_slider_words(square.ord(), blocker.0);
            let m = self.bishop_magics@[square.ord()];
            assert(m.wf());
            assert(0 <= m.slot(blocker.0) < self.bishop@.len());
        }
        let magic = self.bishop_magics[square.index() as usize];
        let index = magic.index(blocker);
        self.bishop[index]
    }

    pub fn get_rook_attack(&self, square: Square, blocker: BitBoard) -> (r: BitBoard)
        requires
            self.wf(),
        ensures
            r.0 == rook_word(square.ord(), blocker.0),
            forall|t: int| #[trigger] bit(r.0, t) == rook_rel(square.ord(), t, blocker.0),
    {
        proof {
            lemma_slider_words(square.ord(), blocker.0);
            let m = self.rook_magics@[square.ord()];
            assert(m.wf());
            assert(0 <= m.slot(blocker.0) < self.rook@.len());
        }
        let magic = self.rook_magics[square.index() as usize];
        let index = magic.index(blocker);
        self.rook[index]
    }

    pub fn get_queen_attack(&self, square: Square, blocker: BitBoard) -> (r: BitBoard)
        requires
            self.wf(),
        ensures
            r.0 == rook_word(square.ord(), blocker.0) | bishop_word(square.ord(), blocker.0),
            forall|t: int| #[trigger] bit(r.0, t) == queen_rel(square.ord(), t, blocker.0),
    {
        let bishop_attack = self.get_bishop_attack(square, blocker);
        let rook_attack = self.get_rook_attack(square, blocker);
        rook_attack.union(bishop_attack)
    }

    pub fn get_king_attack(&self, square: Square) -> (r: BitBoard)
        requires
            self.wf(),
        ensures
            r == self.king[square.ord()],
            forall|t: int| #[trigger] bit(r.0, t) == king_rel(square.ord(), t),
    {
        self.king[square.index() as usize]
    }

    pub fn get_knight_attack(&self, square: Square) -> (r: BitBoard)
        requires
            self.wf(),
        ensures
            r == self.knight[square.ord()],
            forall|t: int| #[trigger] bit(r.0, t) == knight_rel(square.ord(), t),
    {
        self.knight[square.index() as usize]
    }

    pub fn get_pawn_attack(&self, square: Square, color: Color) -> (r: BitBoard)
        requires
            self.wf(),
            color.is_side(),
        ensures
            r == self.pawn[color.ord()][square.ord()],
            forall|t: int| #[trigger] bit(r.0, t) == pawn_rel(color, square.ord(), t),
    {
        self.pawn[color.index()][square.index() as usize]
    }
}

/// For every square and every set of blockers, what the tables of a
/// well-formed generator hold at the hashed place is the attack set that
/// walking the rays gives: no two sets of blockers with different attack
/// sets share a place.
pub proof fn lemma_lookup_is_ray_cast(g: &MoveGenerator, s: int, blockers: u64)
    requires
        g.wf(),
        0 <= s < 64,
    ensures
        0 <= g.rook_magics@[s].slot(blockers) < g.rook@.len(),
        g.rook@[g.rook_magics@[s].slot(blockers)].0 == rook_word(s, blockers),
        0 <= g.bishop_magics@[s].slot(blockers) < g.bishop@.len(),
        g.bishop@[g.bishop_magics@[s].slot(blockers)].0 == bishop_word(s, blockers),
{
    assert(g.rook_magics@[s].wf());
    assert(g.bishop_magics@[s].wf());
}

/// Some man of exactly the kind `piece` attacks the square `t`.
pub open spec fn hit_by(pieces: Seq<Piece>, t: int, piece: Piece) -> bool {
    exists|s: int|
        on_board(s) && (#[trigger] pieces[s]) == piece && attacks(
            piece,
            s,
            t,
            occupied_bits(pieces),
        )
}

/// A square is attacked by a side exactly when one of its six kinds of men
/// attacks it.
pub proof fn lemma_attacked_by_kinds(pieces: Seq<Piece>, t: int, color: Color)
    requires
        color.is_side(),
    ensures
        attacked(pieces, t, color) == (hit_by(pieces, t, Piece::WhitePawn.spec_to_color(color))
            || hit_by(pieces, t, Piece::WhiteKnight.spec_to_color(color)) || hit_by(
            pieces,
            t,
            Piece::WhiteKing.spec_to_color(color),
        ) || hit_by(pieces, t, Piece::WhiteBishop.spec_to_color(color)) || hit_by(
            pieces,
            t,
            Piece::WhiteRook.spec_to_color(color),
        ) || hit_by(pieces, t, Piece::WhiteQueen.spec_to_color(color))),
{
    if attacked(pieces, t, color) {
        let s = choose|s: int|
            on_board(s) && (#[trigger] pieces[s]).belongs_to(color) && attacks(
                pieces[s],
                s,
                t,
                occupied_bits(pieces),
            );
        assert(hit_by(pieces, t, pieces[s]));
    }
}

/// Whether a man of the kind `piece` stands on one of the squares of `from`.
fn strikes(board: &Board, from: BitBoard, piece: Piece, Ghost(t): Ghost<int>) -> (r: bool)
    requires
        board.wf(),
        piece != Piece::Empty,
        forall|s: int|
            on_board(s) ==> #[trigger] bit(from.0, s) == attacks(
                piece,
                s,
                t,
                occupied_bits(board.piece_by_square@),
            ),
    ensures
        r == hit_by(board.piece_by_square@, t, piece),
{
    let ghost p = board.piece_by_square@;
    let men = board.bitboards[piece.value() as usize];
    let hits = from.intersection(men);
    proof {
        piece.lemma_value_at();
        lemma_bit_zero(hits.0);
        if hits.0 != 0 {
            let s = choose|s: int| 0 <= s < 64 && bit(hits.0, s);
            assert(bit(men.0, s));
            assert(p[s] == piece);
        }
        if hit_by(p, t, piece) {
            let s = choose|s: int|
                on_board(s) && (#[trigger] p[s]) == piece && attacks(
                    piece,
                    s,
                    t,
                    occupied_bits(p),
                );
            assert(bit(men.0, s));
            assert(bit(hits.0, s));
        }
    }
    !hits.empty()
}

impl MoveGenerator {
    /// Whether some man of the side `color` attacks `square`. The tables are
    /// read from `square` backwards: a man of a kind attacks the square
    /// exactly when that kind of man, standing on the square, would reach it.
    pub fn is_square_attacked(&self, square: Square, color: Color, board: &Board) -> (r: bool)
        requires
            self.wf(),
            board.wf(),
            color.is_side(),
        ensures
            r == attacked(board.piece_by_square@, square.ord(), color),
    {
        let ghost p = board.piece_by_square@;
        let ghost t = square.ord();
        let ghost occ = occupied_bits(p);
        let all = board.get_occupancies(Color::Both);
        proof {
            board.lemma_sets_of_men();
            lemma_attacked_by_kinds(p, t, color);
            assert forall|s: int| on_board(s) implies rook_rel(s, t, occ) == rook_rel(t, s, occ)
                && bishop_rel(s, t, occ) == bishop_rel(t, s, occ) by {
                lemma_slider_symmetric(s, t, occ);
            }
        }
        let pawn_attack = self.get_pawn_attack(square, color.opposite());
        if strikes(board, pawn_attack, Piece::BlackPawn.to_color(color), Ghost(t)) {
            return true;
        }
        let knight_attack = self.get_knight_attack(square);
        if strikes(board, knight_attack, Piece::BlackKnight.to_color(color), Ghost(t)) {
            return true;
        }
        let king_attack = self.get_king_attack(square);
        if strikes(board, king_attack, Piece::BlackKing.to_color(color), Ghost(t)) {
            return true;
        }
        let bishop_attack = self.get_bishop_attack(square, all);
        if strikes(board, bishop_attack, Piece::BlackBishop.to_color(color), Ghost(t)) {
            return true;
        }
        let rook_attack = self.get_rook_attack(square, all);
        if strikes(board, rook_attack, Piece::BlackRook.to_color(color), Ghost(t)) {
            return true;
        }
        let queen_attack = self.get_queen_attack(square, all);
        if strikes(board, queen_attack, Piece::BlackQueen.to_color(color), Ghost(t)) {
            return true;
        }
        false
    }
}

impl Board {
    /// Whether the king of the side to move is attacked.
    pub fn is_king_in_check(&self, mg: &MoveGenerator) -> (r: bool)
        requires
            self.wf(),
            mg.wf(),
            self.game_state.active_color.is_side(),
            exists|i: int|
                on_board(i) && #[trigger] self.piece_by_square[i] == Piece::WhiteKing.spec_to_color(
                    self.game_state.active_color,
                ),
        ensures
            r == self@.in_check(),
    {
        let king = Piece::WhiteKing.to_color(self.active_color());
        proof {
            self.lemma_sets_of_men();
            king.lemma_value_at();
            let i = choose|i: int|
                on_board(i) && #[trigger] self.piece_by_square[i] == Piece::WhiteKing.spec_to_color(
                    self.game_state.active_color,
                );
            assert(bit(self.bitboards[king.spec_value() as int].0, i));
            lemma_bit_zero(self.bitboards[king.spec_value() as int].0);
        }
        let king_square = self.bitboards[king.value() as usize].lsb_bit_square();
        mg.is_square_attacked(king_square, self.opponent_color(), self)
    }
}

/// The parts of a list with one more move are the parts of the list with
/// the parts of the move at their end.
pub proof fn lemma_parts_push(list: Seq<Move>, m: Move)
    ensures
        parts(list.push(m)) == parts(list).push(m@),
{
    assert(parts(list.push(m)) =~= parts(list).push(m@));
}

/// A set with one square gives the moves to that square.
pub proof fn lemma_single_target(pos: Position, piece: Piece, s: int, t: int)
    requires
        on_board(t),
    ensures
        targets_moves(pos, piece, s, 1u64 << (t as u64), 64) == moves_to(pos, piece, s, t),
{
    let w = 1u64 << (t as u64);
    crate::board_repr::bit_board::lemma_bit_single(t);
    lemma_targets_skip(pos, piece, s, w, 0, t);
    lemma_targets_skip(pos, piece, s, w, t + 1, 64);
    assert(targets_moves(pos, piece, s, w, 0) =~= Seq::<MoveParts>::empty());
    assert(targets_moves(pos, piece, s, w, t + 1) =~= moves_to(pos, piece, s, t));
}

/// Appends the moves of `piece` from `source_square` to `to_square`.
fn push_moves_to(
    board: &Board,
    piece: Piece,
    source_square: Square,
    to_square: Square,
    move_list: &mut MoveList,
)
    requires
        board.game_state.active_color.is_side(),
    ensures
        parts(final(move_list)@) == parts(old(move_list)@) + moves_to(
            board@,
            piece,
            source_square.ord(),
            to_square.ord(),
        ),
{
    let ghost pos = board@;
    let ghost s = source_square.ord();
    let ghost t = to_square.ord();
    let ghost before = move_list@;
    proof {
        to_square.lemma_at_ord();
        source_square.lemma_at_ord();
    }
    let color = board.game_state.active_color;
    let promotion_rank: u8 = match color {
        Color::White => 0,
        _ => 7,
    };
    let is_en_passant = match board.game_state.en_passant_target {
        Some(en_passant_square) => en_passant_square == to_square,
        None => false,
    };
    let from: i16 = source_square.index() as i16;
    let to: i16 = to_square.index() as i16;
    let castling = piece.is_king() && (to - from == 2 || from - to == 2);
    let double_push = piece.is_pawn() && (to - from == 16 || from - to == 16);
    let is_promotion = piece.is_pawn() && to_square.rank() == promotion_rank;
    let captured_piece = board.piece_by_square[to_square.index() as usize];
    let ghost base = plain_move(pos, piece, s, t);
    if is_promotion {
        let rook = Move::encode_move(
            source_square,
            to_square,
            piece,
            captured_piece,
            Piece::WhiteRook.to_color(color),
            is_en_passant,
            castling,
            double_push,
        );
        let queen = Move::encode_move(
            source_square,
            to_square,
            piece,
            captured_piece,
            Piece::WhiteQueen.to_color(color),
            is_en_passant,
            castling,
            double_push,
        );
        let bishop = Move::encode_move(
            source_square,
            to_square,
            piece,
            captured_piece,
            Piece::WhiteBishop.to_color(color),
            is_en_passant,
            castling,
            double_push,
        );
        let knight = Move::encode_move(
            source_square,
            to_square,
            piece,
            captured_piece,
            Piece::WhiteKnight.to_color(color),
            is_en_passant,
            castling,
            double_push,
        );
        move_list.add_move(rook);
        move_list.add_move(queen);
        move_list.add_move(bishop);
        move_list.add_move(knight);
        proof {
            lemma_parts_push(before, rook);
            lemma_parts_push(before.push(rook), queen);
            lemma_parts_push(before.push(rook).push(queen), bishop);
            lemma_parts_push(before.push(rook).push(queen).push(bishop), knight);
            assert(rook@ == promoting(base, Piece::WhiteRook, color));
            assert(queen@ == promoting(base, Piece::WhiteQueen, color));
            assert(bishop@ == promoting(base, Piece::WhiteBishop, color));
            assert(knight@ == promoting(base, Piece::WhiteKnight, color));
            assert(parts(move_list@) =~= parts(before) + moves_to(pos, piece, s, t));
        }
    } else {
        let move_data = Move::encode_move(
            source_square,
            to_square,
            piece,
            captured_piece,
            Piece::Empty,
            is_en_passant,
            castling,
            double_push,
        );
        move_list.add_move(move_data);
        proof {
            lemma_parts_push(before, move_data);
            assert(move_data@ == base);
            assert(parts(move_list@) =~= parts(before) + moves_to(pos, piece, s, t));
        }
    }
}

impl MoveGenerator {
    /// Appends the moves of `piece` from `source_square` to each square of
    /// `to_bitboard`, from the lowest square up. The marks of each move are
    /// read off the board.
    pub fn add_move(
        &self,
        board: &Board,
        piece: Piece,
        source_square: Square,
        to_bitboard: BitBoard,
        move_list: &mut MoveList,
    )
        requires
            board.game_state.active_color.is_side(),
        ensures
            parts(final(move_list)@) == parts(old(move_list)@) + targets_moves(
                board@,
                piece,
                source_square.ord(),
                to_bitboard.0,
                64,
            ),
    {
        let ghost pos = board@;
        let ghost s = source_square.ord();
        let ghost targets = to_bitboard.0;
        let ghost start = parts(move_list@);
        let mut to_bb = to_bitboard;
        let ghost mut frontier: int = 0;
        proof {
            assert(parts(move_list@) =~= start + targets_moves(pos, piece, s, targets, 0));
        }
        while !to_bb.empty()
            invariant
                pos == board@,
                s == source_square.ord(),
                board.game_state.active_color.is_side(),
                0 <= frontier <= 64,
                forall|i: int|
                    #![trigger bit(to_bb.0, i)]
                    #![trigger bit(targets, i)]
                    bit(to_bb.0, i) == (bit(targets, i) && i >= frontier),
                parts(move_list@) == start + targets_moves(pos, piece, s, targets, frontier),
            decreases 64 - frontier,
        {
            let to_square = to_bb.lsb_bit_square();
            let ghost t = to_square.ord();
            let ghost before = parts(move_list@);
            proof {
                assert(bit(to_bb.0, t));
                lemma_targets_skip(pos, piece, s, targets, frontier, t);
            }
            to_bb.pop_bit_value(to_square);
            push_moves_to(board, piece, source_square, to_square, move_list);
            proof {
                assert(targets_moves(pos, piece, s, targets, t + 1) == targets_moves(
                    pos,
                    piece,
                    s,
                    targets,
                    t,
                ) + moves_to(pos, piece, s, t));
                assert(parts(move_list@) =~= start + targets_moves(pos, piece, s, targets, t + 1));
                frontier = t + 1;
            }
        }
        proof {
            lemma_targets_skip(pos, piece, s, targets, frontier, 64);
        }
    }
}

/// Whether the man is a king, a queen, a rook, a bishop or a knight.
pub open spec fn is_officer(piece: Piece) -> bool {
    piece.spec_is_king() || piece.spec_is_queen() || piece.spec_is_rook() || piece.spec_is_bishop()
        || piece.spec_is_knight()
}

impl MoveGenerator {
    /// The squares that `piece`, standing on `source`, may go to.
    fn targets_of(&self, piece: Piece, board: &Board, source: Square, move_type: MoveType) -> (r:
        BitBoard)
        requires
            self.wf(),
            board.wf(),
            board.game_state.active_color.is_side(),
            is_officer(piece),
        ensures
            r.0 == piece_targets(board@, piece, source.ord(), move_type),
    {
        let ghost pos = board@;
        let ghost s = source.ord();
        let occupancy = board.get_occupancies(Color::Both);
        let friendly_occupancy = board.get_occupancies(board.game_state.active_color);
        let opponent_occupancy = board.get_occupancies(board.game_state.active_color.opposite());
        let attack = match piece {
            Piece::WhiteKing | Piece::BlackKing => self.get_king_attack(source),
            Piece::WhiteKnight | Piece::BlackKnight => self.get_knight_attack(source),
            Piece::WhiteRook | Piece::BlackRook => self.get_rook_attack(source, occupancy),
            Piece::WhiteBishop | Piece::BlackBishop => self.get_bishop_attack(source, occupancy),
            _ => self.get_queen_attack(source, occupancy),
        };
        proof {
            board.lemma_sets_of_men();
            lemma_rule_bits(pos, piece, s, move_type, occupied_bits(pos.pieces));
            lemma_bits_equal(attack.0, attack_bits(piece, s, occupied_bits(pos.pieces)));
        }
        match move_type {
            MoveType::All => attack.intersection(friendly_occupancy.complement()),
            MoveType::Quite => attack.intersection(occupancy),
            MoveType::Capture => attack.intersection(opponent_occupancy),
        }
    }

    /// Appends the moves of every man of the kind of `piece` that the side
    /// to move has, from the lowest square up.
    pub fn generate_piece_moves(
        &self,
        piece: Piece,
        board: &Board,
        move_list: &mut MoveList,
        move_type: MoveType,
    )
        requires
            self.wf(),
            board.wf(),
            board.game_state.active_color.is_side(),
            is_officer(piece),
        ensures
            parts(final(move_list)@) == parts(old(move_list)@) + piece_moves(
                board@,
                piece,
                move_type,
                64,
            ),
    {
        let ghost pos = board@;
        let ghost start = parts(move_list@);
        let own = piece.to_color(board.game_state.active_color);
        let mut piece_bitboard = board.bitboards[own.value() as usize];
        let ghost mut frontier: int = 0;
        proof {
            own.lemma_value_at();
            assert(parts(move_list@) =~= start + piece_moves(pos, piece, move_type, 0));
        }
        while !piece_bitboard.empty()
            invariant
                self.wf(),
                board.wf(),
                board.game_state.active_color.is_side(),
                is_officer(piece),
                pos == board@,
                own == piece.spec_to_color(board.game_state.active_color),
                0 <= frontier <= 64,
                forall|i: int|
                    #![trigger bit(piece_bitboard.0, i)]
                    #![trigger pos.pieces[i]]
                    bit(piece_bitboard.0, i) == (on_board(i) && pos.pieces[i] == own && i
                        >= frontier),
                parts(move_list@) == start + piece_moves(pos, piece, move_type, frontier),
            decreases 64 - frontier,
        {
            let source_square = piece_bitboard.lsb_bit_square();
            let ghost s = source_square.ord();
            proof {
                assert(bit(piece_bitboard.0, s));
                lemma_piece_skip(pos, piece, move_type, frontier, s);
            }
            piece_bitboard.pop_bit_value(source_square);
            let moves = self.targets_of(piece, board, source_square, move_type);
            self.add_move(board, piece, source_square, moves, move_list);
            proof {
                assert(piece_moves(pos, piece, move_type, s + 1) == piece_moves(
                    pos,
                    piece,
                    move_type,
                    s,
                ) + targets_moves(pos, piece, s, piece_targets(pos, piece, s, move_type), 64));
                assert(parts(move_list@) =~= start + piece_moves(pos, piece, move_type, s + 1));
                frontier = s + 1;
            }
        }
        proof {
            lemma_piece_skip(pos, piece, move_type, frontier, 64);
        }
    }
}

impl MoveGenerator {
    /// The squares that a pawn of the side to move, standing on `source`, may go to.
    fn pawn_targets_of(&self, board: &Board, source: Square, move_type: MoveType) -> (r: BitBoard)
        requires
            self.wf(),
            board.wf(),
            board.game_state.active_color.is_side(),
            source.row() != promotion_row(board.game_state.active_color),
        ensures
            r.0 == pawn_targets(board@, source.ord(), move_type),
    {
        let ghost pos = board@;
        let ghost s = source.ord();
        let color = board.game_state.active_color;
        let next_rank: i8 = match color {
            Color::White => -1,
            _ => 1,
        };
        let pawns_rank: u8 = match color {
            Color::White => 6,
            _ => 1,
        };
        let occupancy = board.get_occupancies(Color::Both);
        let opponent_occupancy = board.get_occupancies(color.opposite());
        let empty_squares = occupancy.complement();
        let next_square = source.add_rank(next_rank);
        let mut moves = BitBoard::from(0);
        let ghost mut pushes = 0u64;
        let ghost mut captures = 0u64;
        proof {
            board.lemma_sets_of_men();
            lemma_placement_bits(pos.pieces, Piece::Empty, color.spec_opposite());
            lemma_bit_zero(0);
            source.lemma_at_ord();
        }
        if move_type == MoveType::All || move_type == MoveType::Quite {
            let single_push = next_square.get_bitboard().intersection(empty_squares);
            let double_push = if source.rank() == pawns_rank && !single_push.empty() {
                source.add_rank(2 * next_rank).get_bitboard().intersection(empty_squares)
            } else {
                BitBoard::from(0)
            };
            proof {
                let one = s + forward(color);
                Square::lemma_ord_at(one);
                assert(next_square.ord() == one);
                assert forall|t: int|
                    #[trigger] bit(single_push.0, t) == (t == one && pos.pieces[one]
                        == Piece::Empty) by {
                    assert(bit(empty_squares.0, one) == !bit(occupancy.0, one));
                }
                if pos.pieces[one] == Piece::Empty {
                    assert(bit(single_push.0, one));
                }
                lemma_bit_zero(single_push.0);
                assert((single_push.0 != 0) == (pos.pieces[one] == Piece::Empty));
                if source.row() == home_row(color) {
                    let two = s + 2 * forward(color);
                    Square::lemma_ord_at(two);
                    assert(bit(empty_squares.0, two) == !bit(occupancy.0, two));
                }
                assert forall|t: int|
                    #[trigger] bit(double_push.0, t) == (t == s + 2 * forward(color)
                        && source.row() == home_row(color) && pos.pieces[one] == Piece::Empty
                        && pos.pieces[t] == Piece::Empty) by {}
                lemma_bit_ops(single_push.0, double_push.0);
                lemma_bit_ops(0, single_push.0 | double_push.0);
            }
            moves = moves.union(single_push.union(double_push));
            proof {
                pushes = moves.0;
            }
        }
        proof {
            pushes = moves.0;
            assert forall|t: int| on_board(t) implies #[trigger] bit(pushes, t) == (move_type
                != MoveType::Capture && ((t == s + forward(color) && pos.pieces[t] == Piece::Empty)
                || (t == s + 2 * forward(color) && source.row() == home_row(color) && pos.pieces[s
                + forward(color)] == Piece::Empty && pos.pieces[t] == Piece::Empty))) by {}
        }
        if move_type == MoveType::All || move_type == MoveType::Capture {
            let targets = self.get_pawn_attack(source, color);
            let attacks = targets.intersection(opponent_occupancy);
            let en_passant_attack = match board.game_state.en_passant_target {
                Some(square) => {
                    proof {
                        square.lemma_at_ord();
                    }
                    square.get_bitboard().intersection(targets)
                },
                None => BitBoard::from(0),
            };
            let both = attacks.union(en_passant_attack);
            proof {
                captures = both.0;
                assert forall|t: int| on_board(t) implies #[trigger] bit(captures, t) == (pawn_rel(
                    color,
                    s,
                    t,
                ) && (pos.pieces[t].belongs_to(color.spec_opposite())
                    || pos.state.en_passant_target == Some(Square::at(t)))) by {
                    Square::lemma_ord_at(t);
                }
            }
            moves = moves.union(both);
        } else {
            proof {
                lemma_bit_ops(moves.0, 0);
            }
        }
        proof {
            lemma_bit_ops(pushes, captures);
            lemma_rule_bits(pos, Piece::WhitePawn, s, move_type, 0);
            assert forall|t: int| 0 <= t < 64 implies bit(moves.0, t) == bit(
                pawn_targets(pos, s, move_type),
                t,
            ) by {
                assert(bit(moves.0, t) == (bit(pushes, t) || bit(captures, t)));
            }
            lemma_bits_equal(moves.0, pawn_targets(pos, s, move_type));
        }
        moves
    }

    /// Appends the moves of every pawn of the side to move, from the lowest
    /// square up. No pawn of that side may stand on its last row.
    pub fn generate_pawn_moves(
        &self,
        board: &Board,
        move_list: &mut MoveList,
        move_type: MoveType,
    )
        requires
            self.wf(),
            board.wf(),
            board.game_state.active_color.is_side(),
            forall|i: int|
                on_board(i) && #[trigger] board.piece_by_square[i]
                    == Piece::WhitePawn.spec_to_color(board.game_state.active_color) ==> i / 8
                    != promotion_row(board.game_state.active_color),
        ensures
            parts(final(move_list)@) == parts(old(move_list)@) + pawn_moves(board@, move_type, 64),
    {
        let ghost pos = board@;
        let ghost start = parts(move_list@);
        let piece = Piece::WhitePawn.to_color(board.game_state.active_color);
        let mut piece_board = board.bitboards[piece.value() as usize];
        let ghost mut frontier: int = 0;
        proof {
            piece.lemma_value_at();
            assert(parts(move_list@) =~= start + pawn_moves(pos, move_type, 0));
        }
        while !piece_board.empty()
            invariant
                self.wf(),
                board.wf(),
                board.game_state.active_color.is_side(),
                forall|i: int|
                    on_board(i) && #[trigger] board.piece_by_square[i]
                        == Piece::WhitePawn.spec_to_color(board.game_state.active_color) ==> i / 8
                        != promotion_row(board.game_state.active_color),
                pos == board@,
                piece == Piece::WhitePawn.spec_to_color(board.game_state.active_color),
                0 <= frontier <= 64,
                forall|i: int|
                    #![trigger bit(piece_board.0, i)]
                    #![trigger pos.pieces[i]]
                    bit(piece_board.0, i) == (on_board(i) && pos.pieces[i] == piece && i
                        >= frontier),
                parts(move_list@) == start + pawn_moves(pos, move_type, frontier),
            decreases 64 - frontier,
        {
            let source_square = piece_board.lsb_bit_square();
            let ghost s = source_square.ord();
            proof {
                assert(bit(piece_board.0, s));
                lemma_pawn_skip(pos, move_type, frontier, s);
            }
            piece_board.pop_bit_value(source_square);
            let moves = self.pawn_targets_of(board, source_square, move_type);
            self.add_move(board, piece, source_square, moves, move_list);
            proof {
                assert(pawn_moves(pos, move_type, s + 1) == pawn_moves(pos, move_type, s)
                    + targets_moves(pos, piece, s, pawn_targets(pos, s, move_type), 64));
                assert(parts(move_list@) =~= start + pawn_moves(pos, move_type, s + 1));
                frontier = s + 1;
            }
        }
        proof {
            lemma_pawn_skip(pos, move_type, frontier, 64);
        }
    }
}

/// Whether no man stands on any square of `squares`.
fn all_empty(board: &Board, squares: BitBoard) -> (r: bool)
    requires
        board.wf(),
    ensures
        r == (forall|i: int| bit(squares.0, i) ==> #[trigger] board.piece_by_square[i] == Piece::Empty),
{
    let occupancy = board.get_occupancies(Color::Both);
    let met = squares.intersection(occupancy);
    proof {
        board.lemma_sets_of_men();
        lemma_placement_bits(board.piece_by_square@, Piece::Empty, Color::White);
        lemma_bit_zero(met.0);
        if met.0 != 0 {
            let i = choose|i: int| 0 <= i < 64 && bit(met.0, i);
            assert(bit(squares.0, i) && board.piece_by_square[i] != Piece::Empty);
        }
        if met.0 == 0 {
            assert forall|i: int| bit(squares.0, i) implies #[trigger] board.piece_by_square[i]
                == Piece::Empty by {
                assert(!bit(met.0, i));
            }
        }
    }
    met.empty()
}

impl MoveGenerator {
    /// Appends the castling moves that the side to move may make: the
    /// king's side first.
    pub fn generate_castling_moves(&self, board: &Board, move_list: &mut MoveList)
        requires
            self.wf(),
            board.wf(),
            board.game_state.active_color.is_side(),
            exists|i: int|
                on_board(i) && #[trigger] board.piece_by_square[i] == Piece::WhiteKing.spec_to_color(
                    board.game_state.active_color,
                ),
        ensures
            parts(final(move_list)@) == parts(old(move_list)@) + castle_moves(board@),
    {
        let ghost pos = board@;
        let ghost start = parts(move_list@);
        let color = board.game_state.active_color;
        let king = Piece::WhiteKing.to_color(color);
        proof {
            board.lemma_sets_of_men();
            king.lemma_value_at();
            let i = choose|i: int|
                on_board(i) && #[trigger] board.piece_by_square[i] == Piece::WhiteKing.spec_to_color(
                    board.game_state.active_color,
                );
            assert(bit(board.bitboards[king.spec_value() as int].0, i));
            lemma_bit_zero(board.bitboards[king.spec_value() as int].0);
        }
        let source_square = board.bitboards[king.value() as usize].lsb_bit_square();
        let ghost from = source_square.ord();
        assert(from == king_square(pos.pieces, color));
        let rights = board.game_state.castle_settings;
        let (e, f, g, d, c, b) = match color {
            Color::White => (Square::E1, Square::F1, Square::G1, Square::D1, Square::C1, Square::B1),
            _ => (Square::E8, Square::F8, Square::G8, Square::D8, Square::C8, Square::B8),
        };
        let (king_side, queen_side) = match color {
            Color::White => (rights.can_white_castle_king, rights.can_white_castle_queen),
            _ => (rights.can_black_castle_king, rights.can_black_castle_queen),
        };
        let enemy = color.opposite();
        let fb = f.get_bitboard();
        let gb = g.get_bitboard();
        let db = d.get_bitboard();
        let cb = c.get_bitboard();
        let bb = b.get_bitboard();
        let mut short = false;
        if king_side {
            let blockers = fb.union(gb);
            if all_empty(board, blockers) && !self.is_square_attacked(e, enemy, board)
                && !self.is_square_attacked(f, enemy, board) && !self.is_square_attacked(
                g,
                enemy,
                board,
            ) {
                short = true;
            }
        }
        proof {
            lemma_bit_ops(fb.0, gb.0);
            assert(bit(fb.0 | gb.0, f.ord()) && bit(fb.0 | gb.0, g.ord()));
            assert(short == may_castle_king(pos));
        }
        if short {
            self.add_move(board, king, source_square, gb, move_list);
            proof {
                lemma_single_target(pos, king, from, g.ord());
            }
        }
        let ghost middle = parts(move_list@);
        let mut long = false;
        if queen_side {
            let blockers = bb.union(cb).union(db);
            if all_empty(board, blockers) && !self.is_square_attacked(e, enemy, board)
                && !self.is_square_attacked(d, enemy, board) && !self.is_square_attacked(
                c,
                enemy,
                board,
            ) {
                long = true;
            }
        }
        proof {
            let w = bb.0 | cb.0 | db.0;
            lemma_bit_ops(bb.0, cb.0);
            lemma_bit_ops(bb.0 | cb.0, db.0);
            assert(bit(w, b.ord()) && bit(w, c.ord()) && bit(w, d.ord()));
            assert(long == may_castle_queen(pos));
        }
        if long {
            self.add_move(board, king, source_square, cb, move_list);
            proof {
                lemma_single_target(pos, king, from, c.ord());
            }
        }
        proof {
            assert(parts(move_list@) =~= start + castle_moves(pos));
        }
    }

    /// Appends the moves of the side to move, before the test whether they
    /// leave its king in check: pawns, castling, king, queens, rooks,
    /// bishops, knights.
    pub fn generate_moves(&self, board: &Board, move_list: &mut MoveList, move_type: MoveType)
        requires
            self.wf(),
            board.wf(),
            board.game_state.active_color.is_side(),
            exists|i: int|
                on_board(i) && #[trigger] board.piece_by_square[i] == Piece::WhiteKing.spec_to_color(
                    board.game_state.active_color,
                ),
            forall|i: int|
                on_board(i) && #[trigger] board.piece_by_square[i]
                    == Piece::WhitePawn.spec_to_color(board.game_state.active_color) ==> i / 8
                    != promotion_row(board.game_state.active_color),
        ensures
            parts(final(move_list)@) == parts(old(move_list)@) + pseudo_moves(board@, move_type),
    {
        let ghost pos = board@;
        let ghost start = parts(move_list@);
        let color = board.game_state.active_color;
        self.generate_pawn_moves(board, move_list, move_type);
        let ghost castles = if move_type != MoveType::Capture {
            castle_moves(pos)
        } else {
            Seq::<MoveParts>::empty()
        };
        let ghost after_pawns = parts(move_list@);
        if move_type == MoveType::All || move_type == MoveType::Quite {
            self.generate_castling_moves(board, move_list);
        }
        assert(parts(move_list@) =~= after_pawns + castles);
        self.generate_piece_moves(Piece::WhiteKing.to_color(color), board, move_list, move_type);
        self.generate_piece_moves(Piece::WhiteQueen.to_color(color), board, move_list, move_type);
        self.generate_piece_moves(Piece::WhiteRook.to_color(color), board, move_list, move_type);
        self.generate_piece_moves(Piece::WhiteBishop.to_color(color), board, move_list, move_type);
        self.generate_piece_moves(Piece::WhiteKnight.to_color(color), board, move_list, move_type);
        proof {
            reveal(pseudo_moves);
            lemma_concat_seven(
                start,
                pawn_moves(pos, move_type, 64),
                castles,
                piece_moves(pos, Piece::WhiteKing.spec_to_color(color), move_type, 64),
                piece_moves(pos, Piece::WhiteQueen.spec_to_color(color), move_type, 64),
                piece_moves(pos, Piece::WhiteRook.spec_to_color(color), move_type, 64),
                piece_moves(pos, Piece::WhiteBishop.spec_to_color(color), move_type, 64),
                piece_moves(pos, Piece::WhiteKnight.spec_to_color(color), move_type, 64),
            );
        }
    }
}

/// A list grown seven times is the list with the seven pieces joined at its end.
proof fn lemma_concat_seven(
    start: Seq<MoveParts>,
    a: Seq<MoveParts>,
    b: Seq<MoveParts>,
    c: Seq<MoveParts>,
    d: Seq<MoveParts>,
    e: Seq<MoveParts>,
    f: Seq<MoveParts>,
    g: Seq<MoveParts>,
)
    ensures
        start + a + b + c + d + e + f + g == start + (a + b + c + d + e + f + g),
{
    assert(start + a + b + c + d + e + f + g =~= start + (a + b + c + d + e + f + g));
}

} // verus!
