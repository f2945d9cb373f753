use vstd::prelude::*;
use vstd::string::StringSliceAdditionalSpecFns;
use super::words::is_blank_byte;
use super::words::is_word;
use super::words::is_word_in_any_case;
use super::words::lemma_word_bounds;
use super::words::next_word;
use super::words::same_letters;
use super::words::skip_blanks;
use super::words::trim_end;
use super::words::word_end;
use crate::board_repr::board::Board;
use crate::board_repr::fen::column_of;
use crate::board_repr::fen::position_of;
use crate::board_repr::fen::read_fen;
use crate::board_repr::fen::Fen;
use crate::board_repr::history::MAX_MOVES;
use crate::board_repr::fen::man_of;
use crate::board_repr::piece::Piece;
use crate::board_repr::position::Position;
use crate::board_repr::square::Square;
use crate::move_generation::generator::MoveGenerator;
use crate::move_generation::moves::Move;
use crate::move_generation::moves::MoveParts;
use crate::move_generation::moves::MoveType;
use crate::move_generation::rules::parts;
use crate::move_generation::rules::pseudo_moves;
use crate::search::negamax::search_root;
use crate::search::negamax::searched;

verus! {

/// What a move in coordinate notation asks for: a source, a target, and the
/// man to promote to, if any.
pub struct Request {
    pub source: Square,
    pub target: Square,
    pub promoted: Piece,
}

/// The square that a column letter and a rank digit name.
pub open spec fn square_named(letter: u8, digit: u8) -> Option<Square> {
    if column_of(letter).is_some() && 49 <= digit <= 56 {
        Some(Square::at((56 - digit) * 8 + column_of(letter).unwrap()))
    } else {
        None
    }
}

/// What a word asks for: its first four letters name two squares, and a
/// fifth letter, if it is the last, names the man to promote to.
pub open spec fn request(w: Seq<u8>) -> Option<Request> {
    if w.len() < 4 || square_named(w[0], w[1]).is_none() || square_named(w[2], w[3]).is_none() {
        None
    } else {
        Some(
            (Request {
                source: square_named(w[0], w[1]).unwrap(),
                target: square_named(w[2], w[3]).unwrap(),
                promoted: if w.len() == 5 && man_of(w[4]).is_some() {
                    man_of(w[4]).unwrap()
                } else {
                    Piece::Empty
                },
            }),
        )
    }
}

/// Whether the move is what was asked for: it goes from the source to the
/// target and promotes to the man asked for, of either side.
pub open spec fn answers(f: MoveParts, r: Request) -> bool {
    f.source == r.source && f.target == r.target && (f.promoted == r.promoted || (r.promoted
        != Piece::Empty && f.promoted == r.promoted.spec_to_color(
        r.promoted.spec_color().spec_opposite(),
    )))
}

/// The place of the first move from place `i` of the list on that answers
/// the request.
pub open spec fn pick(moves: Seq<MoveParts>, r: Request, i: int) -> Option<int>
    decreases moves.len() - i,
{
    if i < 0 || i >= moves.len() {
        None
    } else if answers(moves[i], r) {
        Some(i)
    } else {
        pick(moves, r, i + 1)
    }
}

/// The move of the position that a word asks for: the first of its
/// generated moves that answers the request of the word.
pub open spec fn asked_move(pos: Position, w: Seq<u8>) -> Option<MoveParts> {
    if request(w).is_some() && pick(
        pseudo_moves(pos, MoveType::All),
        request(w).unwrap(),
        0,
    ).is_some() {
        Some(
            pseudo_moves(pos, MoveType::All)[pick(
                pseudo_moves(pos, MoveType::All),
                request(w).unwrap(),
                0,
            ).unwrap()],
        )
    } else {
        None
    }
}

/// The square that a column letter and a rank digit name.
fn name_square(letter: u8, digit: u8) -> (r: Option<Square>)
    ensures
        r == square_named(letter, digit),
{
    let column: u8 = if 97 <= letter && letter <= 104 {
        letter - 97
    } else if 65 <= letter && letter <= 72 {
        letter - 65
    } else {
        return None;
    };
    if 49 <= digit && digit <= 56 {
        Some(Square::get_by_index((56 - digit) * 8 + column))
    } else {
        None
    }
}

/// What the word from `start` to `end` of the line asks for.
fn read_request(bytes: &[u8], start: usize, end: usize) -> (r: Option<Request>)
    requires
        start <= end <= bytes@.len(),
    ensures
        r == request(bytes@.subrange(start as int, end as int)),
{
    let ghost w = bytes@.subrange(start as int, end as int);
    if end - start < 4 {
        return None;
    }
    assert(w[0] == bytes@[start as int] && w[1] == bytes@[start + 1] && w[2] == bytes@[start + 2]
        && w[3] == bytes@[start + 3]);
    let source = match name_square(bytes[start], bytes[start + 1]) {
        None => {
            return None;
        },
        Some(s) => s,
    };
    let target = match name_square(bytes[start + 2], bytes[start + 3]) {
        None => {
            return None;
        },
        Some(t) => t,
    };
    let promoted = if end - start == 5 {
        assert(w[4] == bytes@[start + 4]);
        match crate::board_repr::fen::piece_of_letter(bytes[start + 4]) {
            Some(p) => p,
            None => Piece::Empty,
        }
    } else {
        Piece::Empty
    };
    Some(Request { source, target, promoted })
}

/// The move of the board that the word from `start` to `end` of the line
/// asks for.
pub fn move_in_word(bytes: &[u8], start: usize, end: usize, board: &Board, mg: &MoveGenerator) -> (r:
    Option<Move>)
    requires
        start <= end <= bytes@.len(),
        board.wf(),
        mg.wf(),
        board@.sound(),
    ensures
        match asked_move(board@, bytes@.subrange(start as int, end as int)) {
            None => r.is_none(),
            Some(f) => r.is_some() && r.unwrap()@ == f && pseudo_moves(
                board@,
                MoveType::All,
            ).contains(f),
        },
{
    let ghost moves = pseudo_moves(board@, MoveType::All);
    let asked = match read_request(bytes, start, end) {
        None => {
            return None;
        },
        Some(a) => a,
    };
    let move_list = mg.list_moves(board, MoveType::All);
    let mut i: usize = 0;
    while i < move_list.count()
        invariant
            i <= move_list@.len(),
            parts(move_list@) == moves,
            moves == pseudo_moves(board@, MoveType::All),
            request(bytes@.subrange(start as int, end as int)) == Some(asked),
            pick(moves, asked, i as int) == pick(moves, asked, 0),
        decreases move_list@.len() - i,
    {
        let m = move_list.get(i);
        assert(parts(move_list@)[i as int] == m@);
        let wanted = m.promoted_piece() == asked.promoted || (!asked.promoted.is_none()
            && m.promoted_piece() == asked.promoted.opposite_color());
        if m.source_square() == asked.source && m.target_square() == asked.target && wanted {
            assert(moves[i as int] == m@);
            assert(moves.contains(m@));
            return Some(m);
        }
        i += 1;
    }
    None
}

/// The number that a word spells from place `i` on, after the digits that
/// gave `value`; nothing for another letter and for a number above 128.
pub open spec fn magnitude(w: Seq<u8>, i: int, value: int) -> Option<int>
    decreases w.len() - i,
{
    if i < 0 || i >= w.len() {
        Some(value)
    } else if 48 <= w[i] <= 57 && value * 10 + (w[i] - 48) <= 128 {
        magnitude(w, i + 1, value * 10 + (w[i] - 48))
    } else {
        None
    }
}

/// The number from -128 to 127 that a word spells: a sign or none, then one
/// digit or more.
pub open spec fn signed_value(w: Seq<u8>) -> Option<int> {
    let signed = w.len() > 0 && (w[0] == 45 || w[0] == 43);
    let from: int = if signed {
        1
    } else {
        0
    };
    if from >= w.len() || magnitude(w, from, 0).is_none() {
        None
    } else if w[0] == 45 {
        Some(-magnitude(w, from, 0).unwrap())
    } else if magnitude(w, from, 0).unwrap() <= 127 {
        Some(magnitude(w, from, 0).unwrap())
    } else {
        None
    }
}

/// The depth that a line asks for, read from place `i` on: every word
/// after the word `depth` sets the depth, to the number it spells or to 6
/// where it spells none, so that the last such word decides.
pub open spec fn asked_depth(b: Seq<u8>, i: int, armed: bool, depth: int) -> int
    decreases b.len() - i,
{
    let s = skip_blanks(b, i);
    let e = word_end(b, s);
    if i < 0 || s >= b.len() {
        depth
    } else {
        proof {
            lemma_word_bounds(b, i);
            lemma_word_bounds(b, s);
        }
        let w = b.subrange(s, e);
        asked_depth(
            b,
            e,
            armed || same_letters(w, "depth".spec_bytes()),
            if armed {
                if signed_value(w).is_some() {
                    signed_value(w).unwrap()
                } else {
                    6
                }
            } else {
                depth
            },
        )
    }
}

/// The number that the word from `start` to `end` of the line spells.
fn read_signed(bytes: &[u8], start: usize, end: usize) -> (r: Option<i8>)
    requires
        start <= end <= bytes@.len(),
    ensures
        r.is_some() == signed_value(bytes@.subrange(start as int, end as int)).is_some(),
        r matches Some(v) ==> v == signed_value(
            bytes@.subrange(start as int, end as int),
        ).unwrap(),
{
    let ghost w = bytes@.subrange(start as int, end as int);
    if start == end {
        return None;
    }
    assert(w[0] == bytes@[start as int]);
    let negative = bytes[start] == 45;
    let from: usize = if bytes[start] == 45 || bytes[start] == 43 {
        start + 1
    } else {
        start
    };
    if from >= end {
        return None;
    }
    let mut value: i16 = 0;
    let mut i: usize = from;
    while i < end
        invariant
            from <= i <= end,
            start <= from,
            end <= bytes@.len(),
            w == bytes@.subrange(start as int, end as int),
            negative == (w[0] == 45),
            from - start == if w[0] == 45 || w[0] == 43 {
                1int
            } else {
                0int
            },
            0 <= value <= 128,
            magnitude(w, i - start, value as int) == magnitude(w, from - start, 0),
        decreases end - i,
    {
        let letter = bytes[i];
        assert(w[i - start] == letter);
        if letter < 48 || letter > 57 {
            return None;
        }
        let next: i16 = value * 10 + (letter - 48) as i16;
        if next > 128 {
            return None;
        }
        value = next;
        i += 1;
    }
    if negative {
        Some((-value) as i8)
    } else if value <= 127 {
        Some(value as i8)
    } else {
        None
    }
}

/// The depth that a line asks for.
pub fn read_depth(bytes: &[u8]) -> (r: i8)
    ensures
        r == asked_depth(bytes@, 0, false, 0),
{
    let ghost b = bytes@;
    let mut depth: i8 = 0;
    let mut armed = false;
    let mut i: usize = 0;
    loop
        invariant
            b == bytes@,
            i <= b.len(),
            asked_depth(b, i as int, armed, depth as int) == asked_depth(b, 0, false, 0),
        decreases b.len() - i,
    {
        let (start, end) = next_word(bytes, i);
        if start >= bytes.len() {
            return depth;
        }
        if armed {
            depth = match read_signed(bytes, start, end) {
                Some(v) => v,
                None => 6,
            };
        }
        if is_word_in_any_case(bytes, start, end, "depth".as_bytes()) {
            armed = true;
        }
        i = end;
    }
}

/// The position at the start of a game, in position notation.
pub const START_FEN: &'static str = "rnbqkbnr/pppppppp/8/8/8/8/PPPPPPPP/RNBQKBNR w KQkq - 0 1";

/// The text in position notation that a line gives, read from place `i`
/// on: the word `startpos` stands for the position at the start of a game,
/// the words after the word `fen` are joined with a blank after each, up
/// to the word `moves`.
pub open spec fn fen_text(b: Seq<u8>, i: int, mode: int, text: Seq<u8>) -> Seq<u8>
    decreases b.len() - i,
{
    let s = skip_blanks(b, i);
    let e = word_end(b, s);
    if i < 0 || s >= b.len() {
        text
    } else {
        proof {
            lemma_word_bounds(b, i);
            lemma_word_bounds(b, s);
        }
        let w = b.subrange(s, e);
        if w == "position".spec_bytes() {
            fen_text(b, e, mode, text)
        } else if w == "startpos".spec_bytes() {
            fen_text(b, e, mode, START_FEN.spec_bytes())
        } else if w == "fen".spec_bytes() {
            fen_text(b, e, 1, text)
        } else if w == "moves".spec_bytes() {
            fen_text(b, e, 2, text)
        } else if mode == 1 {
            fen_text(b, e, mode, text + w + seq![32u8])
        } else {
            fen_text(b, e, mode, text)
        }
    }
}

/// The position after the move that a word asks for, if the position has
/// such a move and it is legal; else the position itself.
pub open spec fn step(pos: Position, w: Seq<u8>) -> Position {
    if asked_move(pos, w).is_some() && pos.is_legal(asked_move(pos, w).unwrap()) {
        pos.made(asked_move(pos, w).unwrap())
    } else {
        pos
    }
}

/// Whether a board with this position and `past` states on record has room
/// for one more move: a free place in the record, and both counters of the
/// game below their end.
pub open spec fn has_room(pos: Position, past: int) -> bool {
    past < MAX_MOVES && pos.state.halfmove_clock < 255 && pos.state.fullmove_number < 255
}

/// Whether the word asks for a move of the position that is legal.
pub open spec fn moves_on(pos: Position, w: Seq<u8>) -> bool {
    asked_move(pos, w).is_some() && pos.is_legal(asked_move(pos, w).unwrap())
}

/// How far the moves of a line could be played: the position reached, the
/// number of states on record, and whether the end of the line was reached.
pub struct Replay {
    pub pos: Position,
    pub past: int,
    pub done: bool,
}

/// What playing the moves of a line gives, read from place `i` on, for a
/// board that holds `pos` with `past` states on record. The moves are the
/// words after the word `moves`, up to the word `fen`. A word that asks for
/// no move of the position, and one that asks for an illegal move, is
/// passed over; a legal move is played and adds a state to the record. The
/// replay stops short at the first word that asks for a move when there is
/// no room for one more.
pub open spec fn replay(pos: Position, past: int, b: Seq<u8>, i: int, mode: int) -> Replay
    decreases b.len() - i,
{
    let s = skip_blanks(b, i);
    let e = word_end(b, s);
    if i < 0 || s >= b.len() {
        Replay { pos: pos, past: past, done: true }
    } else {
        proof {
            lemma_word_bounds(b, i);
            lemma_word_bounds(b, s);
        }
        let w = b.subrange(s, e);
        if w == "position".spec_bytes() {
            replay(pos, past, b, e, mode)
        } else if w == "startpos".spec_bytes() {
            replay(pos, past, b, e, mode)
        } else if w == "fen".spec_bytes() {
            replay(pos, past, b, e, 1)
        } else if w == "moves".spec_bytes() {
            replay(pos, past, b, e, 2)
        } else if mode != 2 {
            replay(pos, past, b, e, mode)
        } else if asked_move(pos, w).is_some() && !has_room(pos, past) {
            Replay { pos: pos, past: past, done: false }
        } else {
            replay(
                step(pos, w),
                if moves_on(pos, w) {
                    past + 1
                } else {
                    past
                },
                b,
                e,
                mode,
            )
        }
    }
}

/// What `parse_position` leaves on the board: a line whose position cannot
/// be read leaves the board as it is; a position that is not sound is put
/// on the board and no move is played on it; on a sound position the moves
/// are played as far as `replay` says.
pub open spec fn positioned(before: &Board, after: &Board, b: Seq<u8>, done: bool) -> bool {
    match read_fen(trim_end(fen_text(b, 0, 0, Seq::empty()))) {
        None => !done && *after == *before,
        Some(parts) => after.wf() && if position_of(parts).sound() {
            &&& after@.sound()
            &&& done == replay(position_of(parts), 0, b, 0, 0).done
            &&& after@ == replay(position_of(parts), 0, b, 0, 0).pos
            &&& after.history@.len() == replay(position_of(parts), 0, b, 0, 0).past
        } else {
            !done && after@ == position_of(parts) && after.history@.len() == 0
        },
    }
}

/// Adds the bytes of the line from `start` to `end` to the text.
fn push_range(text: &mut Vec<u8>, bytes: &[u8], start: usize, end: usize)
    requires
        start <= end <= bytes@.len(),
    ensures
        final(text)@ == old(text)@ + bytes@.subrange(start as int, end as int),
{
    let mut j: usize = start;
    assert(text@ =~= old(text)@ + bytes@.subrange(start as int, start as int));
    while j < end
        invariant
            start <= j <= end,
            end <= bytes@.len(),
            text@ == old(text)@ + bytes@.subrange(start as int, j as int),
        decreases end - j,
    {
        text.push(bytes[j]);
        j += 1;
        assert(text@ =~= old(text)@ + bytes@.subrange(start as int, j as int));
    }
}

/// The text in position notation that a line gives, without the blanks at
/// its end.
fn read_fen_text(bytes: &[u8]) -> (r: Vec<u8>)
    ensures
        r@ == trim_end(fen_text(bytes@, 0, 0, Seq::empty())),
{
    let ghost b = bytes@;
    let mut text: Vec<u8> = Vec::new();
    let mut mode: u8 = 0;
    let mut i: usize = 0;
    loop
        invariant_except_break
            b == bytes@,
            i <= b.len(),
            fen_text(b, i as int, mode as int, text@) == fen_text(b, 0, 0, Seq::empty()),
        ensures
            text@ == fen_text(bytes@, 0, 0, Seq::empty()),
        decreases b.len() - i,
    {
        let (start, end) = next_word(bytes, i);
        if start >= bytes.len() {
            break ;
        }
        if is_word(bytes, start, end, "position".as_bytes()) {
        } else if is_word(bytes, start, end, "startpos".as_bytes()) {
            text = Vec::new();
            let start_bytes = START_FEN.as_bytes();
            push_range(&mut text, start_bytes, 0, start_bytes.len());
            assert(text@ =~= START_FEN.spec_bytes());
        } else if is_word(bytes, start, end, "fen".as_bytes()) {
            mode = 1;
        } else if is_word(bytes, start, end, "moves".as_bytes()) {
            mode = 2;
        } else if mode == 1 {
            let ghost so_far = text@;
            push_range(&mut text, bytes, start, end);
            text.push(32);
            assert(text@ =~= so_far + b.subrange(start as int, end as int) + seq![32u8]);
        }
        i = end;
    }
    let ghost whole = text@;
    while text.len() > 0 && is_blank_byte(text[text.len() - 1])
        invariant
            trim_end(text@) == trim_end(whole),
        decreases text@.len(),
    {
        text.pop();
    }
    text
}

/// Plays on the board the move that the word from `start` to `end` of
/// the line asks for, if the position has such a move and it is legal.
/// Says whether that could be done: it could not where the word asks for
/// a move and the board has no room for one more, and the board then stays
/// as it is.
fn play_word(bytes: &[u8], start: usize, end: usize, board: &mut Board, mg: &MoveGenerator) -> (r:
    bool)
    requires
        start <= end <= bytes@.len(),
        old(board).wf(),
        mg.wf(),
        old(board)@.sound(),
    ensures
        final(board).wf(),
        final(board)@.sound(),
        r == (asked_move(old(board)@, bytes@.subrange(start as int, end as int)).is_none()
            || has_room(old(board)@, old(board).history@.len() as int)),
        r ==> final(board)@ == step(old(board)@, bytes@.subrange(start as int, end as int)),
        r ==> final(board).history@.len() == old(board).history@.len() + if moves_on(
            old(board)@,
            bytes@.subrange(start as int, end as int),
        ) {
            1int
        } else {
            0int
        },
        !r ==> *final(board) == *old(board),
{
    match move_in_word(bytes, start, end, board, mg) {
        None => true,
        Some(m) => {
            if board.history.count() >= MAX_MOVES || board.game_state.halfmove_clock >= 255
                || board.game_state.fullmove_number >= 255 {
                return false;
            }
            board.play(mg, m, Ghost(MoveType::All));
            true
        },
    }
}

/// Plays on the board the moves that the line gives, as far as there is
/// room for them. Says whether the end of the line was reached.
fn replay_moves(bytes: &[u8], board: &mut Board, mg: &MoveGenerator) -> (r: bool)
    requires
        old(board).wf(),
        mg.wf(),
        old(board)@.sound(),
    ensures
        final(board).wf(),
        final(board)@.sound(),
        r == replay(old(board)@, old(board).history@.len() as int, bytes@, 0, 0).done,
        final(board)@ == replay(old(board)@, old(board).history@.len() as int, bytes@, 0, 0).pos,
        final(board).history@.len() == replay(
            old(board)@,
            old(board).history@.len() as int,
            bytes@,
            0,
            0,
        ).past,
{
    let ghost b = bytes@;
    let ghost target = replay(board@, board.history@.len() as int, bytes@, 0, 0);
    let mut mode: u8 = 0;
    let mut i: usize = 0;
    loop
        invariant
            b == bytes@,
            i <= b.len(),
            mg.wf(),
            board.wf(),
            board@.sound(),
            target == replay(old(board)@, old(board).history@.len() as int, bytes@, 0, 0),
            replay(board@, board.history@.len() as int, b, i as int, mode as int) == target,
        decreases b.len() - i,
    {
        let (start, end) = next_word(bytes, i);
        if start >= bytes.len() {
            return true;
        }
        if is_word(bytes, start, end, "position".as_bytes()) {
        } else if is_word(bytes, start, end, "startpos".as_bytes()) {
        } else if is_word(bytes, start, end, "fen".as_bytes()) {
            mode = 1;
        } else if is_word(bytes, start, end, "moves".as_bytes()) {
            mode = 2;
        } else if mode == 2 {
            if !play_word(bytes, start, end, board, mg) {
                return false;
            }
        }
        i = end;
    }
}

/// The engine's side of the control protocol: what a line asks for.
pub struct UCI;

impl UCI {
    /// The move of the board that a word in coordinate notation asks for.
    pub fn parse_move(move_str: &str, board: &Board, mg: &MoveGenerator) -> (r: Option<Move>)
        requires
            board.wf(),
            mg.wf(),
            board@.sound(),
        ensures
            match asked_move(board@, move_str.spec_bytes()) {
                None => r.is_none(),
                Some(f) => r.is_some() && r.unwrap()@ == f && pseudo_moves(
                    board@,
                    MoveType::All,
                ).contains(f),
            },
    {
        let bytes = move_str.as_bytes();
        assert(bytes@.subrange(0, bytes@.len() as int) =~= bytes@);
        move_in_word(bytes, 0, bytes.len(), board, mg)
    }
}

impl UCI {
    /// Searches the position on the board to the depth that the line asks
    /// for, in the window from -32000 to 32000, and gives the best move
    /// found. Where the board is not ready for such a search, nothing is
    /// searched and nothing is given. The board comes back as it was.
    pub fn parse_go(command: &str, board: &mut Board, mg: &MoveGenerator) -> (r: Option<Move>)
        requires
            mg.wf(),
        ensures
            searched(
                old(board),
                final(board),
                asked_depth(command.spec_bytes(), 0, false, 0),
                r,
            ),
    {
        let depth = read_depth(command.as_bytes());
        search_root(board, mg, depth)
    }
}

impl UCI {
    /// Sets up the position that the line gives and plays the moves that it
    /// gives on it, passing over a word that asks for no move of the
    /// position and over an illegal move. A line whose position cannot be
    /// read leaves the board as it is. Says whether the position is on the
    /// board with all the moves played: it is not where the position is not
    /// sound, so that no move can be played on it, or where the board has
    /// no room for another move.
    pub fn parse_position(command: &str, board: &mut Board, mg: &MoveGenerator) -> (r: bool)
        requires
            mg.wf(),
        ensures
            positioned(old(board), final(board), command.spec_bytes(), r),
    {
        let bytes = command.as_bytes();
        let ghost b = bytes@;
        let text = read_fen_text(bytes);
        let ghost parts = read_fen(text@);
        match Fen::board_of(text.as_slice()) {
            None => {
                return false;
            },
            Some(start) => {
                *board = start;
            },
        }
        let ghost first = position_of(parts.unwrap());
        if !board.is_sound(mg) {
            return false;
        }
        replay_moves(bytes, board, mg)
    }
}

/// The name of a square in coordinate notation: its column letter and its
/// rank digit.
pub open spec fn square_text(s: Square) -> Seq<u8> {
    seq![(97 + s.col()) as u8, (56 - s.row()) as u8]
}

/// The letter that stands for a promotion to the given man; none for a
/// man that no pawn is promoted to.
pub open spec fn promotion_letter(p: Piece) -> Option<u8> {
    if p.spec_is_queen() {
        Some(113u8)
    } else if p.spec_is_rook() {
        Some(114u8)
    } else if p.spec_is_bishop() {
        Some(98u8)
    } else if p.spec_is_knight() {
        Some(110u8)
    } else {
        None
    }
}

/// A move in coordinate notation: the names of its source and its target,
/// and the letter of the man it promotes to, if any.
pub open spec fn move_text(f: MoveParts) -> Seq<u8> {
    square_text(f.source) + square_text(f.target) + if promotion_letter(f.promoted).is_some() {
        seq![promotion_letter(f.promoted).unwrap()]
    } else {
        Seq::empty()
    }
}

/// A move that promotes to nothing or to a queen, a rook, a bishop or a
/// knight answers the request that its own text in coordinate notation makes.
pub proof fn lemma_text_asks_for_move(f: MoveParts)
    requires
        f.promoted == Piece::Empty || promotion_letter(f.promoted).is_some(),
    ensures
        request(move_text(f)).is_some(),
        answers(f, request(move_text(f)).unwrap()),
{
    f.source.lemma_at_ord();
    f.target.lemma_at_ord();
    let w = move_text(f);
    assert(w[0] == (97 + f.source.col()) as u8);
    assert(w[1] == (56 - f.source.row()) as u8);
    assert(w[2] == (97 + f.target.col()) as u8);
    assert(w[3] == (56 - f.target.row()) as u8);
    if promotion_letter(f.promoted).is_some() {
        assert(w[4] == promotion_letter(f.promoted).unwrap());
    }
}

impl UCI {
    /// The move in coordinate notation.
    pub fn render(m: Move) -> (r: Vec<u8>)
        ensures
            r@ == move_text(m@),
    {
        let source = m.source_square();
        let target = m.target_square();
        let promoted = m.promoted_piece();
        let mut text: Vec<u8> = Vec::new();
        text.push(97 + source.file());
        text.push(56 - source.rank());
        text.push(97 + target.file());
        text.push(56 - target.rank());
        if promoted.is_queen() {
            text.push(113);
        } else if promoted.is_rook() {
            text.push(114);
        } else if promoted.is_bishop() {
            text.push(98);
        } else if promoted.is_knight() {
            text.push(110);
        }
        assert(text@ =~= move_text(m@));
        text
    }
}

} // verus!
