//! The state of a game in a room of the game server.
use crate::board::Board;
use vstd::prelude::*;

verus! {

/// What a client knows of the game it plays in.
pub struct GameState {
    pub room_id: String,
    pub board: Board,
    pub turn: u16,
}

impl GameState {
    /// The state before anything is known: no room, an empty board, turn 0.
    pub fn new() -> (r: Self)
        ensures
            r.room_id@ == Seq::<char>::empty(),
            r.board == Board::empty(),
            r.turn == 0,
    {
        Self { room_id: String::new(), board: Board::new(), turn: 0 }
    }
}

} // verus!
