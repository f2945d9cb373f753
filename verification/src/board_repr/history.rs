use vstd::prelude::*;
use super::game_state::GameState;

verus! {

/// The number of plies a history has room for.
pub const MAX_MOVES: usize = 2048;

/// The states the game went through, oldest first, each with the move that
/// was played from it.
pub struct History {
    pub history: Vec<GameState>,
}

impl View for History {
    type V = Seq<GameState>;

    open spec fn view(&self) -> Seq<GameState> {
        self.history@
    }
}

impl Default for History {
    fn default() -> (r: History)
        ensures
            r@ == Seq::<GameState>::empty(),
    {
        History::new()
    }
}

impl History {
    pub fn new() -> (r: History)
        ensures
            r@ == Seq::<GameState>::empty(),
    {
        History { history: Vec::with_capacity(MAX_MOVES) }
    }

    /// The number of states on record.
    pub fn count(&self) -> (r: usize)
        ensures
            r == self@.len(),
    {
        self.history.len()
    }

    pub fn push(&mut self, game_state: GameState)
        requires
            old(self)@.len() < MAX_MOVES,
        ensures
            final(self)@ == old(self)@.push(game_state),
    {
        self.history.push(game_state);
    }

    pub fn pop(&mut self) -> (r: GameState)
        requires
            old(self)@.len() > 0,
        ensures
            r == old(self)@.last(),
            final(self)@ == old(self)@.drop_last(),
    {
        self.history.pop().unwrap()
    }
}

} // verus!
