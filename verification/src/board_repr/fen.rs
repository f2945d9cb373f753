use vstd::prelude::*;
use vstd::string::StringSliceAdditionalSpecFns;
use super::bit_board::bit;
use super::bit_board::lemma_bit_ops;
use super::bit_board::lemma_bit_single;
use super::bit_board::lemma_bit_zero;
use super::bit_board::BitBoard;
use super::board::disjoint;
use super::board::piece_on;
use super::board::Board;
use super::game_state::CastleAvailability;
use super::game_state::GameState;
use super::position::Position;
use crate::move_generation::moves::Move;
use super::piece::Color;
use super::piece::Piece;
use super::square::Square;

verus! {

/// The set of squares of each man, by the number of the man.
pub type BitBoardMap = [BitBoard; 12];

/// What a line of position notation says: the squares of each man, the
/// side to move, the castling rights, the square to take on in passing, and
/// the two counters.
pub struct FenState {
    pub bitboards: BitBoardMap,
    pub active_color: Color,
    pub castle_settings: CastleAvailability,
    pub en_passant_target: Option<Square>,
    pub halfmove_clock: u8,
    pub fullmove_number: u8,
}

/// What a line says, as plain values.
pub struct FenParts {
    pub men: Seq<BitBoard>,
    pub color: Color,
    pub rights: CastleAvailability,
    pub passing: Option<Square>,
    pub clock: int,
    pub number: int,
}

impl View for FenState {
    type V = FenParts;

    open spec fn view(&self) -> FenParts {
        FenParts {
            men: self.bitboards@,
            color: self.active_color,
            rights: self.castle_settings,
            passing: self.en_passant_target,
            clock: self.halfmove_clock as int,
            number: self.fullmove_number as int,
        }
    }
}

/// Whether the field that is being read ends at place `i`: at the end of
/// the line or at a blank.
pub open spec fn at_end(b: Seq<u8>, i: int) -> bool {
    i >= b.len() || b[i] == 32
}

/// The man that a letter of the placement stands for.
pub open spec fn man_of(letter: u8) -> Option<Piece> {
    if letter == 80 {
        Some(Piece::WhitePawn)
    } else if letter == 81 {
        Some(Piece::WhiteQueen)
    } else if letter == 75 {
        Some(Piece::WhiteKing)
    } else if letter == 66 {
        Some(Piece::WhiteBishop)
    } else if letter == 78 {
        Some(Piece::WhiteKnight)
    } else if letter == 82 {
        Some(Piece::WhiteRook)
    } else if letter == 112 {
        Some(Piece::BlackPawn)
    } else if letter == 113 {
        Some(Piece::BlackQueen)
    } else if letter == 107 {
        Some(Piece::BlackKing)
    } else if letter == 98 {
        Some(Piece::BlackBishop)
    } else if letter == 110 {
        Some(Piece::BlackKnight)
    } else if letter == 114 {
        Some(Piece::BlackRook)
    } else {
        None
    }
}

/// The placement from place `i` of the line on, with `counter` squares
/// passed and the men of `men` placed so far: a stroke changes nothing, a
/// digit passes over as many squares, a letter places its man on the next
/// square. Gives the sets of the men and the place where the field ends;
/// nothing for an unknown letter or for more than 64 squares.
pub open spec fn read_men(b: Seq<u8>, i: int, counter: int, men: Seq<BitBoard>) -> Option<
    (Seq<BitBoard>, int),
>
    decreases b.len() - i,
{
    if at_end(b, i) {
        Some((men, i))
    } else if b[i] == 47 {
        read_men(b, i + 1, counter, men)
    } else if 48 <= b[i] <= 57 {
        if counter + (b[i] - 48) > 64 {
            None
        } else {
            read_men(b, i + 1, counter + (b[i] - 48), men)
        }
    } else {
        match man_of(b[i]) {
            None => None,
            Some(p) => if counter >= 64 {
                None
            } else {
                read_men(
                    b,
                    i + 1,
                    counter + 1,
                    men.update(
                        p.spec_value() as int,
                        BitBoard(men[p.spec_value() as int].0 | (1u64 << (counter as u64))),
                    ),
                )
            },
        }
    }
}

/// The side to move: the field is the one letter `w` or `b`.
pub open spec fn read_color(b: Seq<u8>, i: int) -> Option<(Color, int)> {
    if i < b.len() && at_end(b, i + 1) && b[i] == 119 {
        Some((Color::White, i + 1))
    } else if i < b.len() && at_end(b, i + 1) && b[i] == 98 {
        Some((Color::Black, i + 1))
    } else {
        None
    }
}

/// The castling rights from place `i` on: each of the letters `K`, `Q`,
/// `k`, `q` gives its right, a dash gives none, any other letter is refused.
pub open spec fn read_rights(b: Seq<u8>, i: int, rights: CastleAvailability) -> Option<
    (CastleAvailability, int),
>
    decreases b.len() - i,
{
    if at_end(b, i) {
        Some((rights, i))
    } else if b[i] == 75 {
        read_rights(b, i + 1, CastleAvailability { can_white_castle_king: true, ..rights })
    } else if b[i] == 81 {
        read_rights(b, i + 1, CastleAvailability { can_white_castle_queen: true, ..rights })
    } else if b[i] == 107 {
        read_rights(b, i + 1, CastleAvailability { can_black_castle_king: true, ..rights })
    } else if b[i] == 113 {
        read_rights(b, i + 1, CastleAvailability { can_black_castle_queen: true, ..rights })
    } else if b[i] == 45 {
        read_rights(b, i + 1, rights)
    } else {
        None
    }
}

/// The column that a letter names, `a` to `h` in either case.
pub open spec fn column_of(letter: u8) -> Option<int> {
    if 97 <= letter <= 104 {
        Some(letter - 97)
    } else if 65 <= letter <= 72 {
        Some(letter - 65)
    } else {
        None
    }
}

/// The square to take on in passing: a dash for none, or the name of a
/// square, its column letter and its rank digit.
pub open spec fn read_passing(b: Seq<u8>, i: int) -> Option<(Option<Square>, int)> {
    if i < b.len() && b[i] == 45 && at_end(b, i + 1) {
        Some((None, i + 1))
    } else if i + 1 < b.len() && column_of(b[i]).is_some() && 49 <= b[i + 1] <= 56 && at_end(
        b,
        i + 2,
    ) {
        Some((Some(Square::at((56 - b[i + 1]) * 8 + column_of(b[i]).unwrap())), i + 2))
    } else {
        None
    }
}

/// The number that the digits from place `i` on spell, after the digits
/// that gave `value`; nothing for another letter and for a number above 255.
pub open spec fn read_digits(b: Seq<u8>, i: int, value: int) -> Option<(int, int)>
    decreases b.len() - i,
{
    if at_end(b, i) {
        Some((value, i))
    } else if 48 <= b[i] <= 57 && value * 10 + (b[i] - 48) <= 255 {
        read_digits(b, i + 1, value * 10 + (b[i] - 48))
    } else {
        None
    }
}

/// A counter: one digit or more, up to 255.
pub open spec fn read_number(b: Seq<u8>, i: int) -> Option<(int, int)> {
    if at_end(b, i) {
        None
    } else {
        read_digits(b, i, 0)
    }
}

/// Twelve empty sets.
pub open spec fn no_men() -> Seq<BitBoard> {
    Seq::new(12, |k: int| BitBoard(0))
}

/// The parts that a line gives when it ends after the placement, the
/// colour, the rights, the square or the clock.
pub open spec fn parts_with(
    men: Seq<BitBoard>,
    color: Color,
    rights: CastleAvailability,
    passing: Option<Square>,
    clock: int,
    number: int,
) -> FenParts {
    FenParts { men, color, rights, passing, clock, number }
}

/// What a line of position notation says: up to six fields with one blank
/// between them, the placement, the side to move, the castling rights, the
/// square to take on in passing, the clock and the move number. A field
/// that the line leaves out has its value at the start of a game: White to
/// move, no rights, no square, clock 0, move 1. Nothing where a field is
/// not what it should be, or where a seventh follows.
pub open spec fn read_fen(b: Seq<u8>) -> Option<FenParts> {
    let none = CastleAvailability::none();
    match read_men(b, 0, 0, no_men()) {
        None => None,
        Some((men, i1)) => if i1 >= b.len() {
            Some(parts_with(men, Color::White, none, None, 0, 1))
        } else {
            match read_color(b, i1 + 1) {
                None => None,
                Some((color, i2)) => if i2 >= b.len() {
                    Some(parts_with(men, color, none, None, 0, 1))
                } else {
                    match read_rights(b, i2 + 1, none) {
                        None => None,
                        Some((rights, i3)) => if i3 >= b.len() {
                            Some(parts_with(men, color, rights, None, 0, 1))
                        } else {
                            match read_passing(b, i3 + 1) {
                                None => None,
                                Some((passing, i4)) => if i4 >= b.len() {
                                    Some(parts_with(men, color, rights, passing, 0, 1))
                                } else {
                                    match read_number(b, i4 + 1) {
                                        None => None,
                                        Some((clock, i5)) => if i5 >= b.len() {
                                            Some(parts_with(men, color, rights, passing, clock, 1))
                                        } else {
                                            match read_number(b, i5 + 1) {
                                                None => None,
                                                Some((number, i6)) => if i6 >= b.len() {
                                                    Some(
                                                        parts_with(
                                                            men,
                                                            color,
                                                            rights,
                                                            passing,
                                                            clock,
                                                            number,
                                                        ),
                                                    )
                                                } else {
                                                    None
                                                },
                                            }
                                        },
                                    }
                                },
                            }
                        },
                    }
                },
            }
        },
    }
}

/// The position that the parts of a line of position notation describe.
pub open spec fn position_of(parts: FenParts) -> Position {
    Position {
        pieces: Seq::new(64, |i: int| piece_on(parts.men, i, 0)),
        state: GameState {
            active_color: parts.color,
            castle_settings: parts.rights,
            en_passant_target: parts.passing,
            halfmove_clock: parts.clock as u8,
            fullmove_number: parts.number as u8,
            next_move: Move::null(),
        },
    }
}

/// The man that a letter of the placement stands for.
pub fn piece_of_letter(letter: u8) -> (r: Option<Piece>)
    ensures
        r == man_of(letter),
{
    match letter {
        80 => Some(Piece::WhitePawn),
        81 => Some(Piece::WhiteQueen),
        75 => Some(Piece::WhiteKing),
        66 => Some(Piece::WhiteBishop),
        78 => Some(Piece::WhiteKnight),
        82 => Some(Piece::WhiteRook),
        112 => Some(Piece::BlackPawn),
        113 => Some(Piece::BlackQueen),
        107 => Some(Piece::BlackKing),
        98 => Some(Piece::BlackBishop),
        110 => Some(Piece::BlackKnight),
        114 => Some(Piece::BlackRook),
        _ => None,
    }
}

/// Reads the placement.
fn parse_men(bytes: &[u8]) -> (r: Option<(BitBoardMap, usize)>)
    ensures
        r.is_some() == read_men(bytes@, 0, 0, no_men()).is_some(),
        r matches Some(pair) ==> pair.0@ == read_men(bytes@, 0, 0, no_men()).unwrap().0 && pair.1
            == read_men(bytes@, 0, 0, no_men()).unwrap().1 && disjoint(pair.0@) && pair.1
            <= bytes@.len() && at_end(bytes@, pair.1 as int),
{
    let ghost b = bytes@;
    let ghost target = read_men(b, 0, 0, no_men());
    let mut men: BitBoardMap = [BitBoard::from(0);12];
    let mut counter: usize = 0;
    let mut i: usize = 0;
    proof {
        assert(men@ =~= no_men());
        lemma_bit_zero(0);
    }
    while i < bytes.len() && bytes[i] != 32
        invariant
            b == bytes@,
            i <= b.len(),
            counter <= 64,
            target == read_men(b, 0, 0, no_men()),
            read_men(b, i as int, counter as int, men@) == target,
            disjoint(men@),
            forall|k: int, j: int| 0 <= k < 12 && #[trigger] bit(men[k].0, j) ==> j < counter,
        decreases b.len() - i,
    {
        let letter = bytes[i];
        if letter == 47 {
        } else if 48 <= letter && letter <= 57 {
            let step = (letter - 48) as usize;
            if counter + step > 64 {
                return None;
            }
            counter += step;
        } else {
            match piece_of_letter(letter) {
                None => {
                    return None;
                },
                Some(p) => {
                    if counter >= 64 {
                        return None;
                    }
                    let v = p.value() as usize;
                    let ghost before = men@;
                    proof {
                        lemma_bit_ops(men[v as int].0, 1u64 << (counter as u64));
                        lemma_bit_single(counter as int);
                    }
                    men[v] = BitBoard::from(men[v].0 | (1u64 << counter));
                    proof {
                        assert(men@ =~= before.update(
                            v as int,
                            BitBoard(before[v as int].0 | (1u64 << (counter as u64))),
                        ));
                        assert forall|k: int, j: int|
                            0 <= k < 12 && #[trigger] bit(men[k].0, j) implies j < counter + 1 by {
                            if k != v {
                                assert(bit(before[k].0, j));
                            } else {
                                assert(bit(before[k].0, j) || j == counter);
                            }
                        }
                        assert forall|j: int, x: int, y: int|
                            0 <= x < 12 && 0 <= y < 12 && x != y implies !(#[trigger] bit(
                            men[x].0,
                            j,
                        ) && #[trigger] bit(men[y].0, j)) by {
                            if bit(men[x].0, j) && bit(men[y].0, j) {
                                if x == v {
                                    assert(bit(before[y].0, j));
                                    assert(bit(before[x].0, j) || j == counter);
                                } else if y == v {
                                    assert(bit(before[x].0, j));
                                    assert(bit(before[y].0, j) || j == counter);
                                } else {
                                    assert(bit(before[x].0, j) && bit(before[y].0, j));
                                }
                            }
                        }
                    }
                    counter += 1;
                },
            }
        }
        i += 1;
    }
    Some((men, i))
}

/// Reads the castling rights.
fn parse_rights(bytes: &[u8], from: usize) -> (r: Option<(CastleAvailability, usize)>)
    requires
        from <= bytes@.len(),
    ensures
        r == match read_rights(bytes@, from as int, CastleAvailability::none()) {
            None => None,
            Some(pair) => Some((pair.0, pair.1 as usize)),
        },
        r matches Some(pair) ==> pair.1 <= bytes@.len() && pair.1 == read_rights(
            bytes@,
            from as int,
            CastleAvailability::none(),
        ).unwrap().1,
{
    let ghost b = bytes@;
    let ghost target = read_rights(b, from as int, CastleAvailability::none());
    let mut rights = CastleAvailability::default();
    let mut i: usize = from;
    while i < bytes.len() && bytes[i] != 32
        invariant
            b == bytes@,
            i <= b.len(),
            target == read_rights(b, from as int, CastleAvailability::none()),
            read_rights(b, i as int, rights) == target,
        decreases b.len() - i,
    {
        match bytes[i] {
            75 => rights.can_white_castle_king = true,
            81 => rights.can_white_castle_queen = true,
            107 => rights.can_black_castle_king = true,
            113 => rights.can_black_castle_queen = true,
            45 => (),
            _ => {
                return None;
            },
        }
        i += 1;
    }
    Some((rights, i))
}

/// Reads a counter.
fn parse_number(bytes: &[u8], from: usize) -> (r: Option<(u8, usize)>)
    requires
        from <= bytes@.len(),
    ensures
        r.is_some() == read_number(bytes@, from as int).is_some(),
        r matches Some(pair) ==> pair.0 == read_number(bytes@, from as int).unwrap().0 && pair.1
            == read_number(bytes@, from as int).unwrap().1 && pair.1 <= bytes@.len(),
{
    let ghost b = bytes@;
    let ghost target = read_number(b, from as int);
    if from >= bytes.len() || bytes[from] == 32 {
        return None;
    }
    let mut value: u16 = 0;
    let mut i: usize = from;
    while i < bytes.len() && bytes[i] != 32
        invariant
            b == bytes@,
            i <= b.len(),
            value <= 255,
            target == read_number(b, from as int),
            read_digits(b, i as int, value as int) == target,
        decreases b.len() - i,
    {
        let letter = bytes[i];
        if letter < 48 || letter > 57 {
            return None;
        }
        let next: u16 = value * 10 + (letter - 48) as u16;
        if next > 255 {
            return None;
        }
        value = next;
        i += 1;
    }
    Some((value as u8, i))
}

/// Whether the field that is being read ends at place `i`.
fn ends_at(bytes: &[u8], i: usize) -> (r: bool)
    ensures
        r == at_end(bytes@, i as int),
{
    i >= bytes.len() || bytes[i] == 32
}

/// Reads the side to move.
fn parse_color(bytes: &[u8], from: usize) -> (r: Option<(Color, usize)>)
    requires
        from <= bytes@.len(),
    ensures
        r.is_some() == read_color(bytes@, from as int).is_some(),
        r matches Some(pair) ==> pair.0 == read_color(bytes@, from as int).unwrap().0 && pair.1
            == read_color(bytes@, from as int).unwrap().1 && pair.1 <= bytes@.len(),
{
    if from < bytes.len() && ends_at(bytes, from + 1) {
        if bytes[from] == 119 {
            return Some((Color::White, from + 1));
        }
        if bytes[from] == 98 {
            return Some((Color::Black, from + 1));
        }
    }
    None
}

/// Reads the square to take on in passing.
fn parse_passing(bytes: &[u8], from: usize) -> (r: Option<(Option<Square>, usize)>)
    requires
        from <= bytes@.len(),
    ensures
        r.is_some() == read_passing(bytes@, from as int).is_some(),
        r matches Some(pair) ==> pair.0 == read_passing(bytes@, from as int).unwrap().0 && pair.1
            == read_passing(bytes@, from as int).unwrap().1 && pair.1 <= bytes@.len(),
{
    if from < bytes.len() && bytes[from] == 45 && ends_at(bytes, from + 1) {
        return Some((None, from + 1));
    }
    if from < bytes.len() && from + 1 < bytes.len() {
        let letter = bytes[from];
        let digit = bytes[from + 1];
        let column: u8 = if 97 <= letter && letter <= 104 {
            letter - 97
        } else if 65 <= letter && letter <= 72 {
            letter - 65
        } else {
            return None;
        };
        if 49 <= digit && digit <= 56 && ends_at(bytes, from + 2) {
            return Some((Some(Square::get_by_index((56 - digit) * 8 + column)), from + 2));
        }
    }
    None
}

/// The reader of position notation.
#[derive(Debug)]
pub struct Fen;

impl Fen {
    /// Reads a line of position notation. The sets of the men that it gives
    /// have no square in common.
    pub fn to_game_state(fen: &str) -> (r: Option<FenState>)
        ensures
            r.is_some() == read_fen(fen.spec_bytes()).is_some(),
            r matches Some(state) ==> state@ == read_fen(fen.spec_bytes()).unwrap() && disjoint(
                state.bitboards@,
            ),
    {
        Fen::read(fen.as_bytes())
    }

    /// Reads a line of position notation that is given as bytes.
    pub fn read(bytes: &[u8]) -> (r: Option<FenState>)
        ensures
            r.is_some() == read_fen(bytes@).is_some(),
            r matches Some(state) ==> state@ == read_fen(bytes@).unwrap() && disjoint(
                state.bitboards@,
            ),
    {
        let mut state = FenState {
            bitboards: [BitBoard::from(0);12],
            active_color: Color::White,
            castle_settings: CastleAvailability::default(),
            en_passant_target: None,
            halfmove_clock: 0,
            fullmove_number: 1,
        };
        let at = match parse_men(bytes) {
            None => {
                return None;
            },
            Some(pair) => {
                state.bitboards = pair.0;
                pair.1
            },
        };
        if at >= bytes.len() {
            return Some(state);
        }
        let at = match parse_color(bytes, at + 1) {
            None => {
                return None;
            },
            Some(pair) => {
                state.active_color = pair.0;
                pair.1
            },
        };
        if at >= bytes.len() {
            return Some(state);
        }
        let at = match parse_rights(bytes, at + 1) {
            None => {
                return None;
            },
            Some(pair) => {
                state.castle_settings = pair.0;
                pair.1
            },
        };
        if at >= bytes.len() {
            return Some(state);
        }
        let at = match parse_passing(bytes, at + 1) {
            None => {
                return None;
            },
            Some(pair) => {
                state.en_passant_target = pair.0;
                pair.1
            },
        };
        if at >= bytes.len() {
            return Some(state);
        }
        let at = match parse_number(bytes, at + 1) {
            None => {
                return None;
            },
            Some(pair) => {
                state.halfmove_clock = pair.0;
                pair.1
            },
        };
        if at >= bytes.len() {
            return Some(state);
        }
        let at = match parse_number(bytes, at + 1) {
            None => {
                return None;
            },
            Some(pair) => {
                state.fullmove_number = pair.0;
                pair.1
            },
        };
        if at >= bytes.len() {
            return Some(state);
        }
        None
    }

    /// The board that a line of position notation describes, with no past.
    pub fn to_board(fen: &str) -> (r: Option<Board>)
        ensures
            r.is_some() == read_fen(fen.spec_bytes()).is_some(),
            r matches Some(board) ==> {
                let parts = read_fen(fen.spec_bytes()).unwrap();
                &&& board.wf()
                &&& board.bitboards@ == parts.men
                &&& board.game_state.active_color == parts.color
                &&& board.game_state.castle_settings == parts.rights
                &&& board.game_state.en_passant_target == parts.passing
                &&& board.game_state.halfmove_clock == parts.clock
                &&& board.game_state.fullmove_number == parts.number
                &&& board.history@.len() == 0
                &&& board@ == position_of(parts)
            },
    {
        Fen::board_of(fen.as_bytes())
    }

    /// The board that a line of position notation, given as bytes,
    /// describes, with no past.
    pub fn board_of(bytes: &[u8]) -> (r: Option<Board>)
        ensures
            r.is_some() == read_fen(bytes@).is_some(),
            r matches Some(board) ==> {
                let parts = read_fen(bytes@).unwrap();
                &&& board.wf()
                &&& board.bitboards@ == parts.men
                &&& board.game_state.active_color == parts.color
                &&& board.game_state.castle_settings == parts.rights
                &&& board.game_state.en_passant_target == parts.passing
                &&& board.game_state.halfmove_clock == parts.clock
                &&& board.game_state.fullmove_number == parts.number
                &&& board.history@.len() == 0
                &&& board@ == position_of(parts)
            },
    {
        match Fen::read(bytes) {
            None => None,
            Some(state) => {
                let board = Board::new(
                    state.bitboards,
                    state.active_color,
                    state.castle_settings,
                    state.en_passant_target,
                    state.halfmove_clock,
                    state.fullmove_number,
                );
                proof {
                    let parts = read_fen(bytes@).unwrap();
                    assert(board@.pieces =~= position_of(parts).pieces);
                }
                Some(board)
            },
        }
    }
}

impl Board {
    /// Puts the position of a line of position notation on the board and
    /// says whether the line could be read; a line that cannot be read
    /// leaves the board as it is.
    pub fn from_fen(&mut self, fen: &str) -> (r: bool)
        ensures
            r == read_fen(fen.spec_bytes()).is_some(),
            !r ==> *final(self) == *old(self),
            r ==> {
                let parts = read_fen(fen.spec_bytes()).unwrap();
                &&& final(self).wf()
                &&& final(self).bitboards@ == parts.men
                &&& final(self).game_state.active_color == parts.color
                &&& final(self).game_state.castle_settings == parts.rights
                &&& final(self).game_state.en_passant_target == parts.passing
                &&& final(self).game_state.halfmove_clock == parts.clock
                &&& final(self).game_state.fullmove_number == parts.number
                &&& final(self).history@.len() == 0
                &&& final(self)@ == position_of(parts)
            },
    {
        match Fen::to_board(fen) {
            None => false,
            Some(board) => {
                self.bitboards = board.bitboards;
                self.occupancy = board.occupancy;
                self.game_state = board.game_state;
                self.piece_by_square = board.piece_by_square;
                self.history = board.history;
                true
            },
        }
    }
}

} // verus!
