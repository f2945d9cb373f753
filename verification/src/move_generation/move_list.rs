use vstd::prelude::*;
use super::moves::Move;
use crate::board_repr::piece::Piece;

verus! {

/// The number of moves a list has room for before it must grow.
pub const MAX_LEGAL_MOVES: usize = 255;

/// The moves of one generation call, in the order in which they were found.
pub struct MoveList {
    pub moves: Vec<Move>,
}

impl View for MoveList {
    type V = Seq<Move>;

    open spec fn view(&self) -> Seq<Move> {
        self.moves@
    }
}

impl Default for MoveList {
    fn default() -> (r: MoveList)
        ensures
            r@ == Seq::<Move>::empty(),
    {
        MoveList::new()
    }
}

impl MoveList {
    pub fn new() -> (r: MoveList)
        ensures
            r@ == Seq::<Move>::empty(),
    {
        MoveList { moves: Vec::with_capacity(MAX_LEGAL_MOVES) }
    }

    pub fn add_move(&mut self, m: Move)
        ensures
            final(self)@ == old(self)@.push(m),
    {
        self.moves.push(m);
    }

    /// The number of moves in the list.
    pub fn count(&self) -> (r: usize)
        ensures
            r == self@.len(),
    {
        self.moves.len()
    }

    /// The move at place `i`.
    pub fn get(&self, i: usize) -> (r: Move)
        requires
            i < self@.len(),
        ensures
            r == self@[i as int],
    {
        self.moves[i]
    }

    /// A cursor over the list, standing before its first move.
    pub fn into_iter(self) -> (r: MoveListIterator)
        ensures
            r.move_list@ == self@,
            r.index == 0,
    {
        MoveListIterator { move_list: self, index: 0 }
    }
}

/// A cursor over a move list.
pub struct MoveListIterator {
    pub move_list: MoveList,
    pub index: usize,
}

impl MoveListIterator {
    /// Steps over the move under the cursor and hands it out. At the end of
    /// the list the cursor stays and nothing is handed out; a move without a
    /// piece is stepped over and nothing is handed out for it either.
    pub fn next(&mut self) -> (r: Option<Move>)
        ensures
            final(self).move_list == old(self).move_list,
            old(self).index >= old(self).move_list@.len() ==> r.is_none() && final(self).index
                == old(self).index,
            old(self).index < old(self).move_list@.len() ==> {
                let m = old(self).move_list@[old(self).index as int];
                &&& final(self).index == old(self).index + 1
                &&& r == if m@.piece == Piece::Empty {
                    None
                } else {
                    Some(m)
                }
            },
    {
        if self.index >= self.move_list.moves.len() {
            return None;
        }
        let result = self.move_list.moves[self.index];
        self.index += 1;
        if result.piece().is_none() {
            return None;
        }
        Some(result)
    }
}

} // verus!
